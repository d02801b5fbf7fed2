//! A poll: its candidate dates, the responses given to it, and the reports
//! made from them.

use crate::calendar::{
    date_text, date_window, is_date, is_valid_day, report_date, skipped, strictly_ascending,
    window, window_days, window_end, Weekday, Weekdays, MAX_DAY, MAX_WEEKS,
};
use crate::chunks::{flat, pack, render_chunks, with_breaks, MAX_CHUNK_CHARS};
use crate::control::Control;
use crate::message_shim::MessageShim;
use crate::response::{copy_dates, Response, ResponseType};
use crate::session::{deadline_after, Flow, Phase, Session, MAX_ROWS};
use crate::text::{
    append_decimal, ascending, char_count, concat_with, decimal, join, joined,
    lemma_ascending_exists, lemma_ascending_unique, lemma_sorted_without_repeats, mention,
    role_mention, role_mention_text, sorted_ids, texts, user_mention_text,
};
use std::collections::HashMap;
use std::collections::HashSet;
use vstd::prelude::*;
use vstd::std_specs::iter::IteratorSpec;
use vstd::string::*;

verus! {

/// The most characters a poll's title may have.
pub const MAX_TITLE: usize = 256;

/// Why a poll was not made.
#[derive(Clone, Copy, Debug, PartialEq, Eq, Structural)]
pub enum CreateError {
    /// The title has more than `MAX_TITLE` characters.
    TitleTooLong,
}

/// What a poll holds, as plain mathematical values.
#[verifier::ext_equal]
pub struct Poll {
    pub owner: u64,
    pub title: Seq<char>,
    pub dates: Seq<i32>,
    pub blackout: Set<i32>,
    pub group: Option<u64>,
    pub message: MessageShim,
    pub responses: Map<u64, Set<i32>>,
    pub closed: bool,
}

impl Poll {
    /// The poll after `user` has given the selection `dates`: it takes the
    /// place of what the user gave before.
    pub open spec fn record(self, user: u64, dates: Set<i32>) -> Poll {
        Poll { responses: self.responses.insert(user, dates), ..self }
    }

    /// The poll after its blackout dates have been replaced by `dates`.
    pub open spec fn black_out(self, dates: Set<i32>) -> Poll {
        Poll { blackout: dates, ..self }
    }

    /// The poll after it has been closed.
    pub open spec fn close(self) -> Poll {
        Poll { closed: true, ..self }
    }

    /// The candidate dates that are not blacked out, in order.
    pub open spec fn offered(self) -> Seq<i32> {
        self.dates.filter(|d: i32| !self.blackout.contains(d))
    }

    /// The users whose response holds `day`.
    pub open spec fn voters(self, day: i32) -> Set<u64> {
        Set::new(|u: u64| self.responses.contains_key(u) && self.responses[u].contains(day))
    }

    /// The number of users whose response holds `day`.
    pub open spec fn count(self, day: i32) -> nat {
        self.voters(day).len()
    }

    /// The voters of `day` in ascending order.
    pub open spec fn voters_in_order(self, day: i32) -> Seq<u64> {
        choose|users: Seq<u64>| ascending(users) && #[trigger] users.to_set() == self.voters(day)
    }

    /// The highest count among `days`, and 0 where there is no day.
    pub open spec fn peak_of(self, days: Seq<i32>) -> nat
        decreases days.len(),
    {
        if days.len() == 0 {
            0
        } else {
            let before = self.peak_of(days.drop_last());
            let here = self.count(days.last());
            if here > before {
                here
            } else {
                before
            }
        }
    }

    /// The highest count among the dates that are not blacked out.
    pub open spec fn peak(self) -> nat {
        self.peak_of(self.offered())
    }

    /// The report line of `day`.
    pub open spec fn line(self, day: i32, detailed: bool) -> Seq<char> {
        line_text(
            date_text(day as int, "%a %Y-%m-%d"@),
            self.voters_in_order(day),
            self.peak(),
            detailed,
        )
    }

    /// The report: one line for each date that is not blacked out, in the
    /// order of the dates.
    pub open spec fn tally(self, detailed: bool) -> Seq<Seq<char>> {
        self.offered().map_values(|d: i32| self.line(d, detailed))
    }

    /// Whether `order` names each user who has responded exactly once.
    pub open spec fn walks(self, order: Seq<u64>) -> bool {
        order.no_duplicates() && order.to_set() == self.responses.dom()
    }

    /// Whether `text` tells how many have responded and names them, in one
    /// order or another.
    pub open spec fn is_summary(self, text: Seq<char>) -> bool {
        exists|order: Seq<u64>| #[trigger] self.walks(order) && text == responded_text(order)
    }

    /// Whether every line of the detailed report, with the line break that
    /// follows it in a message, is short enough for a message.
    pub open spec fn fits(self) -> bool {
        forall|k: int|
            0 <= k < self.tally(true).len() ==> (#[trigger] self.tally(true)[k]).len() + 1
                < MAX_CHUNK_CHARS
    }

    /// The draft that a session of `user` starts from: for a response, what
    /// the user gave before, or nothing; for blackout dates, those in force.
    pub open spec fn seed(self, user: u64, kind: ResponseType) -> Set<i32> {
        match kind {
            ResponseType::Normal => if self.responses.contains_key(user) {
                self.responses[user]
            } else {
                Set::empty()
            },
            ResponseType::Blackout => self.blackout,
        }
    }

    /// Why a session is refused, if it is: first, the poll is restricted to
    /// a group that the user is no member of; then, the poll is closed and
    /// takes no more responses; last, the poll has more candidate dates than
    /// a session can present.
    pub open spec fn start_error(self, member: bool, kind: ResponseType) -> Option<StartError> {
        if self.group is Some && !member {
            Some(StartError::NotInGroup(self.group->0))
        } else if self.closed && kind == ResponseType::Normal {
            Some(StartError::Closed)
        } else if self.dates.len() > MAX_ROWS {
            Some(StartError::TooManyDates)
        } else {
            None
        }
    }

    /// Whether a session belongs to this poll and was handed in.
    pub open spec fn takes(self, flow: Flow) -> bool {
        flow.poll == self.message.message_id && flow.phase == Phase::Submitted
    }

    /// The poll after a session has ended: where the session belongs to this
    /// poll, a response that was handed in is recorded for its user, and
    /// blackout dates that were handed in replace the old ones. A session
    /// that was not handed in, or that belongs to another poll, changes
    /// nothing.
    pub open spec fn settle(self, flow: Flow) -> Poll {
        if flow.poll != self.message.message_id {
            self
        } else {
            match flow.committed() {
                Some(dates) => match flow.kind {
                    ResponseType::Normal => self.record(flow.user, dates),
                    ResponseType::Blackout => self.black_out(dates),
                },
                None => self,
            }
        }
    }

    /// What every poll satisfies: a title within the limit, and candidate
    /// dates that are dates, at least one, in strictly ascending order.
    pub open spec fn valid(self) -> bool {
        &&& self.title.len() <= MAX_TITLE
        &&& self.dates.len() >= 1
        &&& strictly_ascending(self.dates)
        &&& forall|k: int| 0 <= k < self.dates.len() ==> is_date(#[trigger] self.dates[k] as int)
        &&& self.responses.dom().finite()
    }
}

/// The mentions of `users`, in their order.
pub open spec fn mentions(users: Seq<u64>) -> Seq<Seq<char>> {
    users.map_values(|u: u64| mention(u as nat))
}

/// A report line: the date and the number of `users`, marked where that
/// number is the highest of the report and not 0; in a detailed report the
/// users follow, where there are any.
pub open spec fn line_text(date: Seq<char>, users: Seq<u64>, peak: nat, detailed: bool) -> Seq<
    char,
> {
    let head = if peak > 0 && users.len() == peak {
        "__`"@ + date + ":`__ "@ + decimal(users.len())
    } else {
        "`"@ + date + ":` "@ + decimal(users.len())
    };
    if detailed && users.len() > 0 {
        head + " - "@ + joined(mentions(users), ", "@)
    } else {
        head
    }
}

/// The dates that are kept and the dates that are blacked out make up the
/// candidate dates: the number of the first is the number of all less the
/// number of blackout dates among them.
pub proof fn lemma_offered_len(dates: Seq<i32>, blackout: Set<i32>)
    requires
        dates.no_duplicates(),
    ensures
        dates.filter(|d: i32| !blackout.contains(d)).len() == dates.len() - blackout.intersect(
            dates.to_set(),
        ).len(),
        blackout.intersect(dates.to_set()).finite(),
    decreases dates.len(),
{
    let keep = |d: i32| !blackout.contains(d);
    reveal(Seq::filter);
    if dates.len() == 0 {
        assert(blackout.intersect(dates.to_set()) =~= Set::<i32>::empty());
    } else {
        let init = dates.drop_last();
        let last = dates.last();
        lemma_offered_len(init, blackout);
        assert(!init.contains(last)) by {
            if init.contains(last) {
                let j = choose|j: int| 0 <= j < init.len() && init[j] == last;
                assert(dates[j] == dates[dates.len() - 1]);
            }
        }
        assert(dates.to_set() =~= init.to_set().insert(last)) by {
            assert forall|d: i32| dates.to_set().contains(d) <==> init.to_set().insert(
                last,
            ).contains(d) by {
                if dates.contains(d) {
                    let j = choose|j: int| 0 <= j < dates.len() && dates[j] == d;
                    if j < init.len() {
                        assert(init[j] == d);
                    }
                }
                if init.contains(d) {
                    let j = choose|j: int| 0 <= j < init.len() && init[j] == d;
                    assert(dates[j] == d);
                }
                assert(dates[dates.len() - 1] == last);
            }
        }
        if blackout.contains(last) {
            assert(blackout.intersect(dates.to_set()) =~= blackout.intersect(init.to_set()).insert(
                last,
            ));
        } else {
            assert(blackout.intersect(dates.to_set()) =~= blackout.intersect(init.to_set()));
        }
    }
}

/// The voters of a day, in order, are exactly the voters, each once, and
/// as many as the count says.
pub proof fn lemma_voters_in_order(poll: Poll, day: i32)
    requires
        poll.responses.dom().finite(),
    ensures
        ascending(poll.voters_in_order(day)),
        poll.voters_in_order(day).to_set() == poll.voters(day),
        poll.voters_in_order(day).len() == poll.count(day),
{
    assert(poll.voters(day).subset_of(poll.responses.dom()));
    vstd::set_lib::lemma_len_subset(poll.voters(day), poll.responses.dom());
    let witness = lemma_ascending_exists(poll.voters(day));
    assert(ascending(witness) && witness.to_set() == poll.voters(day));
    poll.voters_in_order(day).unique_seq_to_set();
}

/// The report has one line for each candidate date that is not blacked out.
pub proof fn lemma_tally_len(poll: Poll, detailed: bool)
    requires
        poll.valid(),
    ensures
        poll.tally(detailed).len() == poll.dates.len() - poll.blackout.intersect(
            poll.dates.to_set(),
        ).len(),
{
    lemma_offered_len(poll.dates, poll.blackout);
}

/// The highest count of `days` is the count of one of them, unless it is 0,
/// and no day of `days` has a higher count.
pub proof fn lemma_peak_of(poll: Poll, days: Seq<i32>)
    ensures
        forall|k: int| 0 <= k < days.len() ==> poll.count(#[trigger] days[k]) <= poll.peak_of(days),
        poll.peak_of(days) > 0 ==> exists|k: int|
            0 <= k < days.len() && poll.count(#[trigger] days[k]) == poll.peak_of(days),
    decreases days.len(),
{
    if days.len() > 0 {
        lemma_peak_of(poll, days.drop_last());
        let init = days.drop_last();
        assert forall|k: int| 0 <= k < days.len() implies poll.count(#[trigger] days[k])
            <= poll.peak_of(days) by {
            if k < init.len() {
                assert(init[k] == days[k]);
            }
        }
        if poll.peak_of(days) > 0 {
            if poll.count(days.last()) > poll.peak_of(init) {
                assert(poll.count(days[days.len() - 1]) == poll.peak_of(days));
            } else {
                let k = choose|k: int|
                    0 <= k < init.len() && poll.count(#[trigger] init[k]) == poll.peak_of(init);
                assert(init[k] == days[k]);
            }
        }
    }
}

/// Giving the same response a second time changes nothing.
pub proof fn lemma_record_idempotent(poll: Poll, user: u64, dates: Set<i32>)
    ensures
        poll.record(user, dates).record(user, dates) == poll.record(user, dates),
{
    assert(poll.responses.insert(user, dates).insert(user, dates) =~= poll.responses.insert(
        user,
        dates,
    ));
}

/// A later response of a user takes the place of an earlier one.
pub proof fn lemma_record_overwrites(poll: Poll, user: u64, first: Set<i32>, second: Set<i32>)
    ensures
        poll.record(user, first).record(user, second) == poll.record(user, second),
{
    assert(poll.responses.insert(user, first).insert(user, second) =~= poll.responses.insert(
        user,
        second,
    ));
}

/// The mentions of `users`, one string for each.
fn mention_texts(users: &Vec<u64>) -> (list: Vec<String>)
    ensures
        texts(list@) == mentions(users@),
{
    let mut list: Vec<String> = Vec::new();
    let mut i: usize = 0;
    while i < users.len()
        invariant
            i <= users.len(),
            list.len() == i,
            forall|k: int| 0 <= k < i ==> (#[trigger] list@[k])@ == mention(users@[k] as nat),
        decreases users.len() - i,
    {
        list.push(user_mention_text(users[i]));
        i = i + 1;
    }
    assert(texts(list@) =~= mentions(users@));
    list
}

/// Writes the report line of the date written as `date` for the voters
/// `users`, where `peak` is the highest count of the report.
pub fn render_line(date: &str, users: &Vec<u64>, peak: usize, detailed: bool) -> (line: String)
    ensures
        line@ == line_text(date@, users@, peak as nat, detailed),
{
    let count = users.len();
    let mut line = String::new();
    if peak > 0 && count == peak {
        line.append("__`");
        line.append(date);
        line.append(":`__ ");
    } else {
        line.append("`");
        line.append(date);
        line.append(":` ");
    }
    append_decimal(&mut line, count as u64);
    if detailed && count > 0 {
        let list = mention_texts(users);
        let listed = join(&list, ", ");
        line.append(" - ");
        line.append(listed.as_str());
    }
    assert(line@ =~= line_text(date@, users@, peak as nat, detailed));
    line
}

/// Why a poll was not closed.
#[derive(Clone, Copy, Debug, PartialEq, Eq, Structural)]
pub enum CloseError {
    /// Only the owner closes a poll.
    NotOwner,
}

/// Why a session was not started.
#[derive(Clone, Copy, Debug, PartialEq, Eq, Structural)]
pub enum StartError {
    /// The poll is restricted to the members of this role.
    NotInGroup(u64),
    /// The poll is closed.
    Closed,
    /// The poll has more candidate dates than a session can present.
    TooManyDates,
}

/// What the summary of a poll shows.
#[derive(Debug)]
pub struct MessageUpdate {
    /// The text that addresses those whom the owner asks: the mention of
    /// the poll's group, and nothing where the poll has none.
    pub content: String,
    pub title: String,
    /// Words under the title: that the results are final, once they are.
    pub description: String,
    /// How many have responded, and who.
    pub responded: String,
    /// The report, one line for each date.
    pub results: String,
    pub controls: Vec<Control>,
    /// The role that the summary may notify.
    pub allowed_role: Option<u64>,
}

/// What is shown to a user who asks for the details of a poll.
#[derive(Debug)]
pub struct Details {
    /// The messages that are full.
    pub messages: Vec<String>,
    /// The last message.
    pub last_content: String,
    /// Whether the last message offers to choose blackout dates.
    pub blackout: bool,
}

/// Whether `details` shows `chunks`: the last chunk is the last message and
/// the chunks before it are the messages that are full; without chunks the
/// last message is empty and there is no other. Each chunk is its lines,
/// each followed by a line break.
pub open spec fn shows(details: Details, chunks: Seq<Seq<char>>) -> bool {
    if chunks.len() == 0 {
        details.messages.len() == 0 && details.last_content@ == Seq::<char>::empty()
    } else {
        texts(details.messages@) == chunks.drop_last() && details.last_content@ == chunks.last()
    }
}

/// The buttons of a summary: a closed poll takes no responses.
pub open spec fn summary_controls(closed: bool) -> Seq<Control> {
    if closed {
        seq![Control::Details]
    } else {
        seq![Control::Respond, Control::Details]
    }
}

/// How many have responded, and who: the number alone where nobody has.
pub open spec fn responded_text(order: Seq<u64>) -> Seq<char> {
    if order.len() == 0 {
        "**0**"@
    } else {
        "**"@ + decimal(order.len()) + "** ("@ + joined(mentions(order), ", "@) + ")"@
    }
}

/// Writes how many have responded, and who, for the users of `order`.
pub fn responded_summary(order: &Vec<u64>) -> (text: String)
    ensures
        text@ == responded_text(order@),
{
    if order.len() == 0 {
        return String::from_str("**0**");
    }
    let list = mention_texts(order);
    let listed = concat_with(&list, ", ");
    let mut text = String::from_str("**");
    append_decimal(&mut text, order.len() as u64);
    text.append("** (");
    text.append(listed.as_str());
    text.append(")");
    assert(text@ =~= responded_text(order@));
    text
}

/// A list with the days of `days`.
fn copy_days(days: &Vec<i32>) -> (copy: Vec<i32>)
    ensures
        copy@ == days@,
{
    let mut copy: Vec<i32> = Vec::new();
    let mut i: usize = 0;
    while i < days.len()
        invariant
            i <= days.len(),
            copy@ == days@.take(i as int),
        decreases days.len() - i,
    {
        copy.push(days[i]);
        assert(days@.take(i + 1) =~= days@.take(i as int).push(days@[i as int]));
        i = i + 1;
    }
    assert(days@.take(i as int) =~= days@);
    copy
}

/// A map with a copy of each response of `responses`.
fn copy_responses(responses: &HashMap<u64, Response>) -> (copy: HashMap<u64, Response>)
    ensures
        copy@.dom() == responses@.dom(),
        forall|user: u64| responses@.contains_key(user) ==> copy@[user]@ == responses@[user]@,
{
    broadcast use vstd::std_specs::hash::group_hash_axioms;

    let mut copy: HashMap<u64, Response> = HashMap::new();
    let ghost keys = responses.keys().remaining().unref();
    for user in it: responses.keys()
        invariant
            it.seq().unref() == keys,
            keys.to_set() == responses@.dom(),
            forall|u: u64|
                copy@.contains_key(u) <==> exists|j: int|
                    0 <= j < it.index() && #[trigger] keys[j] == u,
            forall|u: u64|
                copy@.contains_key(u) ==> responses@.contains_key(u) && copy@[u]@ == responses@[u]@,
    {
        let ghost before = copy@;
        let ghost at = it.index() as int;
        assert(keys[at] == *user);
        assert(keys.to_set().contains(*user));
        match responses.get(user) {
            Some(response) => {
                copy.insert(*user, response.duplicate());
            },
            None => {},
        }
        proof {
            assert forall|u: u64| copy@.contains_key(u) <==> exists|j: int|
                0 <= j < at + 1 && #[trigger] keys[j] == u by {
                if copy@.contains_key(u) {
                    if before.contains_key(u) {
                        let j = choose|j: int| 0 <= j < at && #[trigger] keys[j] == u;
                        assert(0 <= j < at + 1 && keys[j] == u);
                    } else {
                        assert(keys[at] == u);
                    }
                }
                if exists|j: int| 0 <= j < at + 1 && #[trigger] keys[j] == u {
                    let j = choose|j: int| 0 <= j < at + 1 && #[trigger] keys[j] == u;
                    if j < at {
                        assert(before.contains_key(u));
                    }
                }
            }
        }
    }
    proof {
        assert forall|u: u64| copy@.dom().contains(u) <==> responses@.dom().contains(u) by {
            if responses@.dom().contains(u) {
                assert(keys.to_set().contains(u));
                let j = choose|j: int| 0 <= j < keys.len() && keys[j] == u;
                assert(0 <= j < keys.len() && keys[j] == u);
            }
        }
        assert(copy@.dom() =~= responses@.dom());
    }
    copy
}

/// A scheduling poll.
pub struct Scheduler {
    owner: u64,
    title: String,
    dates: Vec<i32>,
    blackout_dates: HashSet<i32>,
    group: Option<u64>,
    message: MessageShim,
    responses: HashMap<u64, Response>,
    closed: bool,
}

impl View for Scheduler {
    type V = Poll;

    closed spec fn view(&self) -> Poll {
        Poll {
            owner: self.owner,
            title: self.title@,
            dates: self.dates@,
            blackout: self.blackout_dates@,
            group: self.group,
            message: self.message,
            responses: self.responses@.map_values(|r: Response| r@),
            closed: self.closed,
        }
    }
}

impl Scheduler {
    /// The invariant of a poll.
    pub open spec fn wf(&self) -> bool {
        self@.valid()
    }

    /// Makes the poll that `owner` asks for on `today`: its candidate dates
    /// are the window of `weeks` weeks that starts `skip` weeks after the
    /// coming Saturday, on the weekdays of `days`. A title of more than
    /// `MAX_TITLE` characters is refused.
    pub fn new(
        owner: u64,
        group: Option<u64>,
        message: MessageShim,
        today: i32,
        weeks: i64,
        skip: Option<i64>,
        title: &str,
        days: Weekdays,
    ) -> (made: Result<Scheduler, CreateError>)
        requires
            is_date(today as int),
            1 <= weeks <= MAX_WEEKS,
            0 <= skipped(skip),
            window_end(today as int, weeks as int, skipped(skip)) <= MAX_DAY,
            days@ != Set::<Weekday>::empty(),
        ensures
            made is Ok <==> title@.len() <= MAX_TITLE,
            made matches Err(e) ==> e == CreateError::TitleTooLong,
            made matches Ok(poll) ==> poll.wf() && poll@ == (Poll {
                owner,
                title: title@,
                dates: window(today as int, weeks as int, skipped(skip), days),
                blackout: Set::empty(),
                group,
                message,
                responses: Map::empty(),
                closed: false,
            }),
            made matches Ok(poll) ==> poll@.dates.map_values(|d: i32| d as int) == window_days(
                today as int,
                weeks as int,
                skipped(skip),
                days,
            ),
    {
        broadcast use vstd::std_specs::hash::group_hash_axioms;

        if char_count(title) > MAX_TITLE {
            return Err(CreateError::TitleTooLong);
        }
        let dates = date_window(today, weeks, skip, &days);
        let poll = Scheduler {
            owner,
            title: String::from_str(title),
            dates,
            blackout_dates: HashSet::new(),
            group,
            message,
            responses: HashMap::new(),
            closed: false,
        };
        assert(poll@.responses =~= Map::empty());
        Ok(poll)
    }

    /// Records the response of `user`, in place of any earlier one. The
    /// dates are taken as they are, whether or not the poll asks about them.
    pub fn add_response(&mut self, user: u64, response: Response)
        requires
            old(self).wf(),
        ensures
            final(self).wf(),
            final(self)@ == old(self)@.record(user, response@),
    {
        broadcast use vstd::std_specs::hash::group_hash_axioms;

        self.responses.insert(user, response);
        assert(self@.responses =~= old(self)@.responses.insert(user, response@));
    }

    /// Replaces the blackout dates by the dates of `response`.
    pub fn set_blackout(&mut self, response: Response)
        requires
            old(self).wf(),
        ensures
            final(self).wf(),
            final(self)@ == old(self)@.black_out(response@),
    {
        broadcast use vstd::std_specs::hash::group_hash_axioms;

        self.blackout_dates = response.dates;
    }

    /// The users whose response holds `day`, each once, in the order in
    /// which the responses are walked.
    fn voters_of(&self, day: i32) -> (users: Vec<u64>)
        ensures
            users@.no_duplicates(),
            users@.to_set() == self@.voters(day),
    {
        broadcast use vstd::std_specs::hash::group_hash_axioms;

        let mut users: Vec<u64> = Vec::new();
        let ghost order = self.responses.keys().remaining().unref();
        for user in it: self.responses.keys()
            invariant
                it.seq().unref() == order,
                it.seq().unref().to_set() == self.responses@.dom(),
                it.seq().no_duplicates(),
                users@.no_duplicates(),
                forall|u: u64|
                    users@.contains(u) <==> exists|j: int|
                        0 <= j < it.index() && it.seq().unref()[j] == u
                            && self.responses@[u]@.contains(day),
        {
            let ghost before = users@;
            let ghost at = it.index() as int;
            assert(it.seq().unref()[at] == *user);
            assert(it.seq().unref().to_set().contains(*user));
            if let Some(response) = self.responses.get(user) {
                if response.contains(day) {
                    assert(!before.contains(*user)) by {
                        if before.contains(*user) {
                            let j = choose|j: int|
                                0 <= j < at && it.seq().unref()[j] == *user;
                            assert(it.seq()[j] == it.seq()[at]);
                        }
                    }
                    users.push(*user);
                    assert forall|u: u64| users@.contains(u) <==> exists|j: int|
                        0 <= j < at + 1 && it.seq().unref()[j] == u && self.responses@[u]@.contains(
                            day,
                        ) by {
                        if users@.contains(u) {
                            let k = choose|k: int| 0 <= k < users@.len() && users@[k] == u;
                            if k < before.len() {
                                assert(before[k] == u);
                                assert(before.contains(u));
                            } else {
                                assert(u == *user);
                                assert(it.seq().unref()[at] == u);
                            }
                        }
                        if exists|j: int|
                            0 <= j < at + 1 && it.seq().unref()[j] == u
                                && self.responses@[u]@.contains(day) {
                            let j = choose|j: int|
                                0 <= j < at + 1 && it.seq().unref()[j] == u
                                    && self.responses@[u]@.contains(day);
                            if j < at {
                                assert(before.contains(u));
                                let k = choose|k: int| 0 <= k < before.len() && before[k] == u;
                                assert(users@[k] == u);
                            } else {
                                assert(users@[users@.len() - 1] == u);
                            }
                        }
                    }
                }
            }
        }
        proof {
            assert forall|u: u64| users@.to_set().contains(u) <==> self@.voters(day).contains(
                u,
            ) by {
                if self@.voters(day).contains(u) {
                    assert(self.responses@.dom().contains(u));
                    assert(order.to_set().contains(u));
                    assert(order.contains(u));
                }
            }
            assert(users@.to_set() =~= self@.voters(day));
        }
        users
    }

    /// The report of the poll: for each candidate date that is not blacked
    /// out, in order, the date and the number of users who chose it, marked
    /// where that number is the highest and not 0; `detailed` adds the users
    /// themselves, in ascending order.
    pub fn get_results(&self, detailed: bool) -> (lines: Vec<String>)
        requires
            self.wf(),
        ensures
            texts(lines@) == self@.tally(detailed),
            lines.len() == self@.dates.len() - self@.blackout.intersect(
                self@.dates.to_set(),
            ).len(),
    {
        broadcast use vstd::std_specs::hash::group_hash_axioms;

        let ghost poll = self@;
        let ghost keep = |d: i32| !poll.blackout.contains(d);
        let mut days: Vec<i32> = Vec::new();
        let mut voters: Vec<Vec<u64>> = Vec::new();
        let mut peak: usize = 0;
        let mut i: usize = 0;
        while i < self.dates.len()
            invariant
                i <= self.dates.len(),
                poll == self@,
                self.wf(),
                keep == (|d: i32| !poll.blackout.contains(d)),
                days@ == self.dates@.take(i as int).filter(keep),
                voters.len() == days.len(),
                forall|k: int|
                    0 <= k < days.len() ==> (#[trigger] voters@[k])@ == poll.voters_in_order(
                        days@[k],
                    ) && voters@[k]@.len() == poll.count(days@[k]),
                forall|k: int| 0 <= k < days.len() ==> is_date(#[trigger] days@[k] as int),
                peak == poll.peak_of(days@),
            decreases self.dates.len() - i,
        {
            let day = self.dates[i];
            proof {
                assert(self.dates@.take(i + 1) =~= self.dates@.take(i as int).push(day));
                self.dates@.take(i as int).lemma_filter_push(day, keep);
            }
            if !self.blackout_dates.contains(&day) {
                let found = self.voters_of(day);
                let ghost walked = found@;
                let users = sorted_ids(found);
                proof {
                    lemma_sorted_without_repeats(walked, users@);
                    lemma_ascending_unique(users@, poll.voters_in_order(day));
                    users@.unique_seq_to_set();
                    assert(days@.push(day).drop_last() =~= days@);
                }
                if users.len() > peak {
                    peak = users.len();
                }
                days.push(day);
                voters.push(users);
            }
            i = i + 1;
        }
        proof {
            assert(self.dates@.take(i as int) =~= self.dates@);
            lemma_offered_len(poll.dates, poll.blackout);
        }
        let mut lines: Vec<String> = Vec::new();
        let mut k: usize = 0;
        while k < days.len()
            invariant
                k <= days.len(),
                poll == self@,
                days@ == poll.offered(),
                voters.len() == days.len(),
                forall|j: int|
                    0 <= j < days.len() ==> (#[trigger] voters@[j])@ == poll.voters_in_order(
                        days@[j],
                    ),
                forall|j: int| 0 <= j < days.len() ==> is_date(#[trigger] days@[j] as int),
                peak == poll.peak(),
                lines.len() == k,
                forall|j: int|
                    0 <= j < k ==> (#[trigger] lines@[j])@ == poll.line(days@[j], detailed),
            decreases days.len() - k,
        {
            let date = report_date(days[k]);
            lines.push(render_line(date.as_str(), &voters[k], peak, detailed));
            k = k + 1;
        }
        assert(texts(lines@) =~= poll.tally(detailed));
        lines
    }

    /// The users who have responded, each once, in the order in which the
    /// responses are walked.
    pub fn responders(&self) -> (order: Vec<u64>)
        ensures
            self@.walks(order@),
    {
        broadcast use vstd::std_specs::hash::group_hash_axioms;

        let mut order: Vec<u64> = Vec::new();
        let ghost raw = self.responses.keys().remaining();
        let ghost keys = raw.unref();
        proof {
            assert forall|i: int, j: int| 0 <= i < j < keys.len() implies keys[i] != keys[j] by {
                assert(raw[i] != raw[j]);
            }
        }
        for user in it: self.responses.keys()
            invariant
                it.seq().unref() == keys,
                keys.to_set() == self.responses@.dom(),
                keys.no_duplicates(),
                order@ == keys.take(it.index() as int),
        {
            let ghost at = it.index() as int;
            assert(keys[at] == *user);
            assert(keys.take(at + 1) =~= keys.take(at).push(*user));
            order.push(*user);
        }
        proof {
            assert(order@ =~= keys);
            assert(self@.responses.dom() =~= self.responses@.dom());
        }
        order
    }

    /// How many have responded, and who.
    pub fn get_responses(&self) -> (text: String)
        ensures
            self@.is_summary(text@),
            self@.responses.dom() == Set::<u64>::empty() ==> text@ == "**0**"@,
    {
        let order = self.responders();
        proof {
            if order@.len() > 0 {
                assert(order@.to_set().contains(order@[0]));
            }
        }
        responded_summary(&order)
    }

    /// What the summary of the poll shows now.
    pub fn update_message(&self) -> (update: MessageUpdate)
        requires
            self.wf(),
        ensures
            update.content@ == match self@.group {
                Some(role) => role_mention(role as nat),
                None => Seq::empty(),
            },
            update.title@ == self@.title,
            update.description@ == if self@.closed {
                "Final results"@
            } else {
                Seq::empty()
            },
            self@.is_summary(update.responded@),
            update.results@ == joined(self@.tally(false), "\n"@),
            update.controls@ == summary_controls(self@.closed),
            update.allowed_role == self@.group,
    {
        let content = match self.group {
            Some(role) => role_mention_text(role),
            None => String::new(),
        };
        let responded = self.get_responses();
        let lines = self.get_results(false);
        let results = join(&lines, "\n");
        let mut controls: Vec<Control> = Vec::new();
        let description = if self.closed {
            String::from_str("Final results")
        } else {
            controls.push(Control::Respond);
            String::new()
        };
        controls.push(Control::Details);
        assert(controls@ =~= summary_controls(self@.closed));
        MessageUpdate {
            content,
            title: self.title.clone(),
            description,
            responded,
            results,
            controls,
            allowed_role: self.group,
        }
    }

    /// Whether every line of the detailed report, with its line break, is
    /// short enough for a message, so that the details can be shown.
    pub fn details_fit(&self) -> (fits: bool)
        requires
            self.wf(),
        ensures
            fits == self@.fits(),
    {
        let lines = self.get_results(true);
        let mut k: usize = 0;
        while k < lines.len()
            invariant
                k <= lines.len(),
                texts(lines@) == self@.tally(true),
                forall|j: int| 0 <= j < k ==> (#[trigger] lines@[j])@.len() + 1 < MAX_CHUNK_CHARS,
            decreases lines.len() - k,
        {
            if char_count(lines[k].as_str()) >= MAX_CHUNK_CHARS - 1 {
                assert(texts(lines@)[k as int] == lines@[k as int]@);
                return false;
            }
            k = k + 1;
        }
        proof {
            assert forall|j: int| 0 <= j < self@.tally(true).len() implies (
            #[trigger] self@.tally(true)[j]).len() + 1 < MAX_CHUNK_CHARS by {
                assert(texts(lines@)[j] == lines@[j]@);
            }
        }
        true
    }

    /// The detailed report for `viewer`, packed into messages; the owner is
    /// offered to choose blackout dates. Every line of the report, with its
    /// line break, has to be short enough for a message.
    pub fn show_details(&self, viewer: u64) -> (details: Details)
        requires
            self.wf(),
            self@.fits(),
        ensures
            details.blackout == (viewer == self@.owner),
            shows(details, pack(self@.tally(true), MAX_CHUNK_CHARS as nat)),
            flat(texts(details.messages@).push(details.last_content@)) == flat(
                with_breaks(self@.tally(true)),
            ),
    {
        let lines = self.get_results(true);
        proof {
            assert forall|j: int| 0 <= j < lines.len() implies (#[trigger] lines@[j])@.len() + 1
                < MAX_CHUNK_CHARS by {
                assert(texts(lines@)[j] == lines@[j]@);
            }
        }
        let mut messages = render_chunks(&lines, MAX_CHUNK_CHARS);
        let ghost chunks = texts(messages@);
        let last_content = match messages.pop() {
            Some(last) => last,
            None => String::new(),
        };
        proof {
            if chunks.len() > 0 {
                assert(texts(messages@) =~= chunks.drop_last());
                assert(texts(messages@).push(last_content@) =~= chunks);
            } else {
                let alone = texts(messages@).push(last_content@);
                assert(alone.drop_last() =~= Seq::<Seq<char>>::empty());
                assert(flat(alone) =~= Seq::<char>::empty());
                assert(texts(lines@).len() == 0);
                assert(with_breaks(texts(lines@)) =~= Seq::<Seq<char>>::empty());
            }
        }
        Details { messages, last_content, blackout: viewer == self.owner }
    }

    /// The details for `viewer` where they can be shown, and nothing where
    /// a line of the report is too long for a message.
    pub fn show_details_if_fit(&self, viewer: u64) -> (shown: Option<Details>)
        requires
            self.wf(),
        ensures
            shown is Some <==> self@.fits(),
            shown matches Some(details) ==> details.blackout == (viewer == self@.owner) && shows(
                details,
                pack(self@.tally(true), MAX_CHUNK_CHARS as nat),
            ) && flat(texts(details.messages@).push(details.last_content@)) == flat(
                with_breaks(self@.tally(true)),
            ),
    {
        if self.details_fit() {
            Some(self.show_details(viewer))
        } else {
            None
        }
    }

    /// Closes the poll on behalf of `user`, who has to be its owner.
    pub fn close_by(&mut self, user: u64) -> (done: Result<(), CloseError>)
        requires
            old(self).wf(),
        ensures
            final(self).wf(),
            done is Ok <==> user == old(self)@.owner,
            done is Ok ==> final(self)@ == old(self)@.close(),
            done matches Err(e) ==> e == CloseError::NotOwner && final(self)@ == old(self)@,
    {
        if user == self.owner {
            self.close();
            Ok(())
        } else {
            Err(CloseError::NotOwner)
        }
    }

    /// The role to which the poll is restricted, if it is.
    pub fn group(&self) -> (group: Option<u64>)
        ensures
            group == self@.group,
    {
        self.group
    }

    /// Starts the session in which `user` puts a selection together.
    /// `member` says whether the user belongs to the poll's group, and is
    /// asked for only where the poll has one.
    pub fn get_response(&self, user: u64, member: bool, resp_type: ResponseType, now: u64) -> (started:
        Result<Session, StartError>)
        requires
            self.wf(),
        ensures
            started matches Err(e) ==> self@.start_error(member, resp_type) == Some(e),
            started matches Ok(session) ==> self@.start_error(member, resp_type) is None
                && session.wf() && session@ == (Flow {
                kind: resp_type,
                user,
                poll: self@.message.message_id,
                dates: self@.dates,
                blackout: self@.blackout,
                draft: self@.seed(user, resp_type),
                deadline: deadline_after(now),
                phase: Phase::Presenting,
            }),
    {
        broadcast use vstd::std_specs::hash::group_hash_axioms;

        if let Some(role) = self.group {
            if !member {
                return Err(StartError::NotInGroup(role));
            }
        }
        if self.closed && resp_type == ResponseType::Normal {
            return Err(StartError::Closed);
        }
        if self.dates.len() > MAX_ROWS {
            return Err(StartError::TooManyDates);
        }
        let seed = match resp_type {
            ResponseType::Normal => match self.responses.get(&user) {
                Some(response) => response.duplicate(),
                None => Response::new(),
            },
            ResponseType::Blackout => Response { dates: copy_dates(&self.blackout_dates) },
        };
        Ok(
            Session::begin(
                resp_type,
                user,
                self.message.message_id,
                copy_days(&self.dates),
                copy_dates(&self.blackout_dates),
                seed,
                now,
            ),
        )
    }

    /// Takes in what a session has come to. Where the session belongs to
    /// this poll, a response that was handed in is recorded, and blackout
    /// dates that were handed in are put in force. A session that was not
    /// handed in, or that belongs to another poll, changes nothing.
    pub fn commit(&mut self, session: Session) -> (changed: bool)
        requires
            old(self).wf(),
        ensures
            final(self).wf(),
            final(self)@ == old(self)@.settle(session@),
            changed == old(self)@.takes(session@),
    {
        if session.poll() != self.message.message_id {
            return false;
        }
        let kind = session.kind();
        let user = session.user();
        match session.into_response() {
            Some(response) => {
                match kind {
                    ResponseType::Normal => self.add_response(user, response),
                    ResponseType::Blackout => self.set_blackout(response),
                }
                true
            },
            None => false,
        }
    }

    /// Whether `title` is short enough for a poll.
    pub fn title_fits(title: &str) -> (fits: bool)
        ensures
            fits == (title@.len() <= MAX_TITLE),
    {
        char_count(title) <= MAX_TITLE
    }

    /// The user who made the poll.
    pub fn owner(&self) -> (owner: u64)
        ensures
            owner == self@.owner,
    {
        self.owner
    }

    /// The title of the poll.
    pub fn title(&self) -> (title: &str)
        ensures
            title@ == self@.title,
    {
        self.title.as_str()
    }

    /// The candidate dates, in order.
    pub fn dates(&self) -> (dates: &Vec<i32>)
        ensures
            dates@ == self@.dates,
    {
        &self.dates
    }

    /// The blackout dates.
    pub fn blackout_dates(&self) -> (blackout: Response)
        ensures
            blackout@ == self@.blackout,
    {
        Response { dates: copy_dates(&self.blackout_dates) }
    }

    /// The message that shows the poll.
    pub fn message(&self) -> (message: MessageShim)
        ensures
            message == self@.message,
    {
        self.message
    }

    /// Whether the poll is closed.
    pub fn is_closed(&self) -> (closed: bool)
        ensures
            closed == self@.closed,
    {
        self.closed
    }

    /// What `user` has responded, if anything.
    pub fn response_of(&self, user: u64) -> (response: Option<Response>)
        ensures
            response is Some <==> self@.responses.contains_key(user),
            response matches Some(r) ==> r@ == self@.responses[user],
    {
        broadcast use vstd::std_specs::hash::group_hash_axioms;

        match self.responses.get(&user) {
            Some(response) => Some(response.duplicate()),
            None => None,
        }
    }

    /// Puts a poll together from what a record holds. Nothing where the
    /// parts do not make a valid poll.
    pub fn restore(
        owner: u64,
        title: &str,
        dates: Vec<i32>,
        blackout: Response,
        group: Option<u64>,
        message: MessageShim,
        responses: HashMap<u64, Response>,
        closed: bool,
    ) -> (restored: Option<Scheduler>)
        ensures
            restored is Some <==> (title@.len() <= MAX_TITLE && dates.len() >= 1
                && strictly_ascending(dates@) && forall|k: int|
                0 <= k < dates.len() ==> is_date(#[trigger] dates@[k] as int)),
            restored matches Some(poll) ==> poll.wf() && poll@ == (Poll {
                owner,
                title: title@,
                dates: dates@,
                blackout: blackout@,
                group,
                message,
                responses: responses@.map_values(|r: Response| r@),
                closed,
            }),
    {
        broadcast use vstd::std_specs::hash::group_hash_axioms;

        if char_count(title) > MAX_TITLE || dates.len() == 0 {
            return None;
        }
        let mut k: usize = 0;
        while k < dates.len()
            invariant
                k <= dates.len(),
                forall|j: int| 0 <= j < k ==> is_date(#[trigger] dates@[j] as int),
                forall|i: int, j: int| 0 <= i < j < k ==> dates@[i] < dates@[j],
            decreases dates.len() - k,
        {
            if !is_valid_day(dates[k]) {
                return None;
            }
            if k > 0 && dates[k - 1] >= dates[k] {
                return None;
            }
            proof {
                assert forall|i: int, j: int| 0 <= i < j < k + 1 implies dates@[i] < dates@[j] by {
                    if j == k && i < k - 1 {
                        assert(dates@[i] < dates@[k - 1]);
                    }
                }
            }
            k = k + 1;
        }
        let poll = Scheduler {
            owner,
            title: String::from_str(title),
            dates,
            blackout_dates: blackout.dates,
            group,
            message,
            responses,
            closed,
        };
        assert(poll@.responses.dom() =~= poll.responses@.dom());
        Some(poll)
    }

    /// A poll that holds what this one holds.
    pub fn duplicate(&self) -> (copy: Scheduler)
        ensures
            copy@ == self@,
    {
        let copy = Scheduler {
            owner: self.owner,
            title: self.title.clone(),
            dates: copy_days(&self.dates),
            blackout_dates: copy_dates(&self.blackout_dates),
            group: self.group,
            message: self.message,
            responses: copy_responses(&self.responses),
            closed: self.closed,
        };
        assert(copy@.responses =~= self@.responses);
        copy
    }

    /// Closes the poll. A closed poll stays closed.
    pub fn close(&mut self)
        requires
            old(self).wf(),
        ensures
            final(self).wf(),
            final(self)@ == old(self)@.close(),
    {
        self.closed = true;
    }
}

} // verus!
