//! The decisions of the radar reader's loops: waiting for the game's
//! process to appear, waiting for the client to be in a game, and when to
//! send the current map again.
use vstd::prelude::*;
use crate::overview::opt_chars;
use crate::signatures::CLIENT_STATE_IN_GAME;

verus! {

/// What to do after looking for the game's process once.
pub enum WaitAction {
    /// The process was found: stop waiting.
    Found,
    /// Not found: sleep, then look again; if `announce`, first tell the
    /// user that the radar is waiting.
    Retry { announce: bool },
}

/// Waiting for the game's process: the user is told once that the radar
/// waits, at the first look that does not find it.
pub struct ProcessWait {
    pub first: bool,
}

impl ProcessWait {
    /// Before the first look.
    pub fn new() -> (res: ProcessWait)
        ensures
            res.first,
    {
        ProcessWait { first: true }
    }

    /// Decides after one look, `found` telling whether the process was found.
    pub fn poll(&mut self, found: bool) -> (action: WaitAction)
        ensures
            (final(self).first, action) == wait_step(old(self).first, found),
            found ==> action is Found,
            !found ==> action == (WaitAction::Retry { announce: old(self).first }),
            !found ==> !final(self).first,
    {
        if found {
            WaitAction::Found
        } else {
            let announce = self.first;
            self.first = false;
            WaitAction::Retry { announce }
        }
    }
}

/// The state after a look and the decision it gives, `first` telling
/// whether no look has failed yet and `found` whether this one found the process.
pub open spec fn wait_step(first: bool, found: bool) -> (bool, WaitAction) {
    if found {
        (first, WaitAction::Found)
    } else {
        (false, WaitAction::Retry { announce: first })
    }
}

/// How many times the waiting message is given over the looks `looks`.
pub open spec fn announcements(first: bool, looks: Seq<bool>) -> nat
    decreases looks.len(),
{
    if looks.len() == 0 {
        0
    } else {
        let (next, action) = wait_step(first, looks[0]);
        (if action == (WaitAction::Retry { announce: true }) {
            1nat
        } else {
            0nat
        }) + announcements(next, looks.drop_first())
    }
}

/// However many looks it takes, the waiting message is given at most once,
/// and never after it was given.
pub proof fn lemma_wait_announces_once(first: bool, looks: Seq<bool>)
    ensures
        announcements(first, looks) <= 1,
        !first ==> announcements(first, looks) == 0,
    decreases looks.len(),
{
    if looks.len() > 0 {
        let (next, _) = wait_step(first, looks[0]);
        lemma_wait_announces_once(next, looks.drop_first());
        lemma_wait_announces_once(false, looks.drop_first());
    }
}

/// Whether the client's connection state `state` means that a game is running.
pub fn in_game(state: u32) -> (res: bool)
    ensures
        res == (state == CLIENT_STATE_IN_GAME),
{
    state == CLIENT_STATE_IN_GAME
}

/// The map is sent again at least once every this many rounds.
pub const MAP_RESEND_ROUNDS: u64 = 1000;

/// The radar reader's memory between rounds: the map last looked at and
/// the number of rounds completed (wrapping around).
pub struct RadarState {
    pub last_map: Option<String>,
    pub round: u64,
}

/// Whether the map must be (re)sent when map `name` is current at round
/// `round`, the last map looked at being `last`: when the map changed, and
/// on every round that is a multiple of `MAP_RESEND_ROUNDS`.
pub open spec fn must_send_map(last: Option<Seq<char>>, round: u64, name: Seq<char>) -> bool {
    last != Some(name) || round % MAP_RESEND_ROUNDS == 0
}

impl RadarState {
    /// No map seen yet, no round completed.
    pub fn new() -> (res: RadarState)
        ensures
            res.last_map is None,
            res.round == 0,
    {
        RadarState { last_map: None, round: 0 }
    }

    /// Notes that map `name` is current and tells whether it must be sent.
    /// Afterwards, `name` is the last map looked at.
    pub fn observe_map(&mut self, name: String) -> (send: bool)
        ensures
            send == must_send_map(opt_chars(old(self).last_map), old(self).round, name@),
            old(self).last_map is None ==> send,
            old(self).last_map matches Some(l) && l@ != name@ ==> send,
            old(self).last_map matches Some(l) && l@ == name@ ==> (send <==> old(self).round % 1000
                == 0),
            opt_chars(final(self).last_map) == Some(name@),
            final(self).round == old(self).round,
    {
        let changed = match &self.last_map {
            Some(last) => !(*last == name),
            None => true,
        };
        let send = changed || self.round % MAP_RESEND_ROUNDS == 0;
        if send {
            self.last_map = Some(name);
        }
        send
    }

    /// Ends a round in which a game ran.
    pub fn end_round(&mut self)
        ensures
            final(self).last_map == old(self).last_map,
            final(self).round == (if old(self).round == u64::MAX {
                0
            } else {
                old(self).round + 1
            }),
    {
        self.round = self.round.wrapping_add(1);
    }
}

/// A map is sent the first time it is seen, and then again only when it
/// changes or on a round that is a multiple of `MAP_RESEND_ROUNDS`: seeing
/// the same map again on another round is not a reason to send it.
pub proof fn lemma_same_map_not_resent(name: Seq<char>, round: u64)
    ensures
        must_send_map(None, round, name),
        round % MAP_RESEND_ROUNDS != 0 ==> !must_send_map(Some(name), round, name),
        round % MAP_RESEND_ROUNDS == 0 ==> must_send_map(Some(name), round, name),
{
}

/// A map different from the last one seen is always sent, whatever the
/// round; the same map is sent again only on rounds that are multiples of
/// 1000; and a map is always sent when none was seen before.
pub proof fn lemma_changed_map_sent(last: Seq<char>, name: Seq<char>, round: u64)
    ensures
        last != name ==> must_send_map(Some(last), round, name),
        must_send_map(Some(name), round, name) <==> round % 1000 == 0,
        must_send_map(None, round, name),
{
}

} // verus!
