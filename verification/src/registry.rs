//! The polls of the process, by identifier, and what has to reach the
//! store after each change.

use crate::response::Response;
use crate::scheduler::{CloseError, Poll, Scheduler};
use crate::session::Session;
use vstd::prelude::*;

verus! {

/// Trusted: the type of lockfree's map. Nothing of its inside is visible.
#[verifier::external_type_specification]
#[verifier::external_body]
#[verifier::reject_recursive_types(K)]
#[verifier::reject_recursive_types(V)]
#[verifier::reject_recursive_types(H)]
pub struct ExLockfreeMap<K, V, H>(lockfree::map::Map<K, V, H>);

/// Trusted: the type of the guard under which lockfree's map lends an entry.
#[verifier::external_type_specification]
#[verifier::external_body]
#[verifier::reject_recursive_types(K)]
#[verifier::reject_recursive_types(V)]
pub struct ExLockfreeReadGuard<'map, K: 'map, V: 'map>(lockfree::map::ReadGuard<'map, K, V>);

/// The polls that a map holds, by identifier.
pub uninterp spec fn held(map: lockfree::map::Map<u64, Scheduler>) -> Map<u64, Poll>;

/// The poll that a guard lends.
pub uninterp spec fn lent(guard: lockfree::map::ReadGuard<'_, u64, Scheduler>) -> Poll;

/// No polls at all.
pub open spec fn no_polls() -> Map<u64, Poll> {
    Map::empty()
}

/// Trusted: lockfree's `Map::new`, which makes a map without entries.
#[verifier::external_body]
fn lockfree_new() -> (fresh: lockfree::map::Map<u64, Scheduler>)
    ensures
        held(fresh) == no_polls(),
{
    lockfree::map::Map::new()
}

/// Trusted: lockfree's `Map::insert`, which puts the entry in
/// unconditionally, in place of an entry with the same key.
#[verifier::external_body]
fn lockfree_insert(map: &mut lockfree::map::Map<u64, Scheduler>, id: u64, poll: Scheduler)
    ensures
        held(*final(map)) == held(*old(map)).insert(id, poll@),
{
    map.insert(id, poll);
}

/// Trusted: lockfree's `Map::remove`, which takes the entry of the key out
/// where there is one, and says whether there was.
#[verifier::external_body]
fn lockfree_remove(map: &mut lockfree::map::Map<u64, Scheduler>, id: u64) -> (was: bool)
    ensures
        held(*final(map)) == held(*old(map)).remove(id),
        was == held(*old(map)).contains_key(id),
{
    map.remove(&id).is_some()
}

/// Trusted: lockfree's `Map::get`, which searches for the entry of the key
/// and lends it under a guard where it finds one.
#[verifier::external_body]
fn lockfree_get(map: &lockfree::map::Map<u64, Scheduler>, id: u64) -> (guard: Option<
    lockfree::map::ReadGuard<'_, u64, Scheduler>,
>)
    ensures
        guard is Some <==> held(*map).contains_key(id),
        guard matches Some(g) ==> lent(g) == held(*map)[id],
{
    map.get(&id)
}

/// Trusted: lockfree's `ReadGuard::val`, the value of the entry that the
/// guard lends.
#[verifier::external_body]
fn lockfree_val<'a>(guard: &'a lockfree::map::ReadGuard<'_, u64, Scheduler>) -> (poll: &'a Scheduler)
    ensures
        poll@ == lent(*guard),
{
    guard.val()
}

/// Trusted: lockfree's `Map::iter`, walked to its end, with the key taken
/// of each entry. The walk meets each entry of the map once; its order is
/// that of the map's tables and is not stated.
#[verifier::external_body]
fn lockfree_keys(map: &lockfree::map::Map<u64, Scheduler>) -> (ids: Vec<u64>)
    ensures
        ids@.no_duplicates(),
        ids@.to_set() == held(*map).dom(),
{
    map.iter().map(|guard| *guard.key()).collect()
}

/// What has to happen to the store after a change of the registry.
#[derive(Clone, Copy, Debug, PartialEq, Eq, Structural)]
pub enum StoreOp {
    /// The record of this poll is written anew from the poll as it is now.
    Write(u64),
    /// The record of this poll is deleted.
    Delete(u64),
    /// Nothing changes.
    Nothing,
}

/// The store after `op`, where `memory` holds the polls as they are when
/// the operation is performed.
pub open spec fn stored(store: Map<u64, Poll>, op: StoreOp, memory: Map<u64, Poll>) -> Map<
    u64,
    Poll,
> {
    match op {
        StoreOp::Write(id) => store.insert(id, memory[id]),
        StoreOp::Delete(id) => store.remove(id),
        StoreOp::Nothing => store,
    }
}

/// The store after the record of `id` has been written once for each state
/// of `states`, in order.
pub open spec fn rewritten(store: Map<u64, Poll>, id: u64, states: Seq<Map<u64, Poll>>) -> Map<
    u64,
    Poll,
>
    decreases states.len(),
{
    if states.len() == 0 {
        store
    } else {
        stored(rewritten(store, id, states.drop_last()), StoreOp::Write(id), states.last())
    }
}

/// After any number of writes of one poll, one after the other, its record
/// is the poll as it was at the last of them, and no other record changed.
pub proof fn lemma_last_write_stands(store: Map<u64, Poll>, id: u64, states: Seq<Map<u64, Poll>>)
    requires
        states.len() >= 1,
        forall|k: int| 0 <= k < states.len() ==> (#[trigger] states[k]).contains_key(id),
    ensures
        rewritten(store, id, states).contains_key(id),
        rewritten(store, id, states)[id] == states.last()[id],
        rewritten(store, id, states).remove(id) == store.remove(id),
    decreases states.len(),
{
    let before = states.drop_last();
    if states.len() >= 2 {
        assert forall|k: int| 0 <= k < before.len() implies (#[trigger] before[k]).contains_key(
            id,
        ) by {
            assert(before[k] == states[k]);
        }
        lemma_last_write_stands(store, id, before);
    }
    assert(rewritten(store, id, states).remove(id) =~= rewritten(store, id, before).remove(id));
}

/// A change to one poll.
pub enum Change {
    /// The user gives this response.
    Respond(u64, Response),
    /// These blackout dates take the place of the old ones.
    Blackout(Response),
    /// The user closes the poll.
    Close(u64),
    /// A session of the poll has ended.
    Settle(Session),
}

/// The poll after `change`. A close by a user who is not the owner, a
/// session that was not handed in, and a session of another poll change
/// nothing.
pub open spec fn changed(poll: Poll, change: Change) -> Poll {
    match change {
        Change::Respond(user, response) => poll.record(user, response@),
        Change::Blackout(response) => poll.black_out(response@),
        Change::Close(user) => if user == poll.owner {
            poll.close()
        } else {
            poll
        },
        Change::Settle(session) => poll.settle(session@),
    }
}

/// No change touches what is fixed when a poll is made: its owner, title,
/// candidate dates, group and message. No change reopens a closed poll, and
/// every change leaves a valid poll valid.
pub proof fn lemma_change_keeps(poll: Poll, change: Change)
    requires
        poll.valid(),
    ensures
        changed(poll, change).valid(),
        changed(poll, change).owner == poll.owner,
        changed(poll, change).title == poll.title,
        changed(poll, change).dates == poll.dates,
        changed(poll, change).group == poll.group,
        changed(poll, change).message == poll.message,
        poll.closed ==> changed(poll, change).closed,
{
}

/// What a write to a poll came to.
#[derive(Clone, Copy, Debug, PartialEq, Eq, Structural)]
pub struct Written {
    /// Whether the change was refused: only a close can be.
    pub refused: Option<CloseError>,
    /// What has to happen to the store, whether or not the change was
    /// refused.
    pub store: StoreOp,
}

/// The read access to one poll: while it lives, the registry cannot change.
pub struct Reader<'a> {
    guard: lockfree::map::ReadGuard<'a, u64, Scheduler>,
}

impl<'a> View for Reader<'a> {
    type V = Poll;

    closed spec fn view(&self) -> Poll {
        lent(self.guard)
    }
}

impl<'a> Reader<'a> {
    /// The poll that is read.
    pub fn poll(&self) -> (poll: &Scheduler)
        ensures
            poll@ == self@,
    {
        lockfree_val(&self.guard)
    }
}

/// The polls of the process.
pub struct Registry {
    polls: lockfree::map::Map<u64, Scheduler>,
}

impl View for Registry {
    type V = Map<u64, Poll>;

    closed spec fn view(&self) -> Map<u64, Poll> {
        held(self.polls)
    }
}

impl Registry {
    /// The invariant of a registry: every poll in it is a valid poll.
    pub open spec fn wf(&self) -> bool {
        forall|id: u64| self@.contains_key(id) ==> (#[trigger] self@[id]).valid()
    }

    /// A registry without polls.
    pub fn new() -> (registry: Registry)
        ensures
            registry.wf(),
            registry@ == Map::<u64, Poll>::empty(),
    {
        Registry { polls: lockfree_new() }
    }

    /// Registers `poll` under `id`, in place of a poll that was registered
    /// under it before. Its record has to be written.
    pub fn insert(&mut self, id: u64, poll: Scheduler) -> (op: StoreOp)
        requires
            old(self).wf(),
            poll.wf(),
        ensures
            final(self).wf(),
            final(self)@ == old(self)@.insert(id, poll@),
            op == StoreOp::Write(id),
            stored(old(self)@, op, final(self)@) == final(self)@,
    {
        lockfree_insert(&mut self.polls, id, poll);
        assert(stored(old(self)@, StoreOp::Write(id), self@) =~= self@);
        StoreOp::Write(id)
    }

    /// Takes the poll registered under `id` out and hands a copy of it
    /// over. Its record has to be deleted. Nothing happens where there is
    /// none.
    pub fn remove(&mut self, id: u64) -> (removed: (Option<Scheduler>, StoreOp))
        requires
            old(self).wf(),
        ensures
            final(self).wf(),
            final(self)@ == old(self)@.remove(id),
            removed.0 is Some <==> old(self)@.contains_key(id),
            removed.0 matches Some(poll) ==> poll.wf() && poll@ == old(self)@[id],
            removed.1 == if old(self)@.contains_key(id) {
                StoreOp::Delete(id)
            } else {
                StoreOp::Nothing
            },
            stored(old(self)@, removed.1, final(self)@) == final(self)@,
    {
        let found = self.copy_of(id);
        let was = lockfree_remove(&mut self.polls, id);
        proof {
            if !old(self)@.contains_key(id) {
                assert(old(self)@.remove(id) =~= old(self)@);
            }
        }
        if was {
            (found, StoreOp::Delete(id))
        } else {
            (found, StoreOp::Nothing)
        }
    }

    /// A copy of the poll registered under `id`, read under a guard.
    fn copy_of(&self, id: u64) -> (copy: Option<Scheduler>)
        ensures
            copy is Some <==> self@.contains_key(id),
            copy matches Some(poll) ==> poll@ == self@[id],
    {
        match lockfree_get(&self.polls, id) {
            Some(guard) => Some(lockfree_val(&guard).duplicate()),
            None => None,
        }
    }

    /// Whether a poll is registered under `id`.
    pub fn contains(&self, id: u64) -> (found: bool)
        ensures
            found == self@.contains_key(id),
    {
        lockfree_get(&self.polls, id).is_some()
    }

    /// The read access to the poll registered under `id`, where there is
    /// one.
    pub fn read(&self, id: u64) -> (reader: Option<Reader<'_>>)
        requires
            self.wf(),
        ensures
            reader is Some <==> self@.contains_key(id),
            reader matches Some(r) ==> r@ == self@[id] && r@.valid(),
    {
        match lockfree_get(&self.polls, id) {
            Some(guard) => Some(Reader { guard }),
            None => None,
        }
    }

    /// The identifiers of all polls, each once, in no stated order.
    pub fn ids(&self) -> (ids: Vec<u64>)
        ensures
            ids@.no_duplicates(),
            ids@.to_set() == self@.dom(),
    {
        lockfree_keys(&self.polls)
    }

    /// The exclusive access to the poll registered under `id`: makes
    /// `change` to it and says what has to happen to the store. The record
    /// is written whenever there is such a poll, whether or not the change
    /// was refused. Nothing happens where there is none.
    pub fn write(&mut self, id: u64, change: Change) -> (written: Option<Written>)
        requires
            old(self).wf(),
        ensures
            final(self).wf(),
            written is Some <==> old(self)@.contains_key(id),
            written is None ==> final(self)@ == old(self)@,
            written matches Some(w) ==> {
                &&& final(self)@ == old(self)@.insert(id, changed(old(self)@[id], change))
                &&& w.store == StoreOp::Write(id)
                &&& w.refused is Some <==> (change matches Change::Close(user) && user != old(
                    self,
                )@[id].owner)
                &&& w.refused matches Some(e) ==> e == CloseError::NotOwner
                &&& stored(old(self)@, w.store, final(self)@) == final(self)@
            },
    {
        match self.copy_of(id) {
            None => None,
            Some(poll) => {
                let mut poll = poll;
                let mut refused: Option<CloseError> = None;
                match change {
                    Change::Respond(user, response) => {
                        poll.add_response(user, response);
                    },
                    Change::Blackout(response) => {
                        poll.set_blackout(response);
                    },
                    Change::Close(user) => {
                        match poll.close_by(user) {
                            Ok(()) => {},
                            Err(e) => {
                                refused = Some(e);
                            },
                        }
                    },
                    Change::Settle(session) => {
                        poll.commit(session);
                    },
                }
                lockfree_insert(&mut self.polls, id, poll);
                proof {
                    assert(self@ =~= old(self)@.insert(id, changed(old(self)@[id], change)));
                    assert(stored(old(self)@, StoreOp::Write(id), self@) =~= self@);
                }
                Some(Written { refused, store: StoreOp::Write(id) })
            },
        }
    }
}

} // verus!
