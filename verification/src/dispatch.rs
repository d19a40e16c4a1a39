//! The dispatcher: one inbound update in, the owed replies out.
//!
//! Every plain message runs both per-update checks, independently: first
//! the command path, ranked against the tally as it stands, then the vote
//! path, which may add this very message's nomination. Non-message updates
//! are ignored.

use vstd::prelude::*;

use crate::clock::now_seconds;
use crate::command::{parse_command, parse_command_spec};
use crate::extract::{extract_candidate, extract_candidate_spec, IncomingMessage};
use crate::model::{CandidateRecord, RankingRequest};
use crate::rank::top_spec;
use crate::storage::{record_vote_spec, Storage};

verus! {

/// One outbound reply: which chat to post into and which message to answer.
#[derive(Clone, Copy, Debug, PartialEq, Eq, Structural)]
pub struct Reply {
    /// The chat the command was issued in.
    pub chat_id: i64,
    /// The nominated message the reply is threaded onto.
    pub reply_to_message_id: i64,
}

/// An inbound update from the chat platform: a plain message, or anything
/// else (edits, joins, ...), which the bot ignores.
#[derive(Debug)]
pub enum UpdateEvent {
    Message(IncomingMessage),
    Other,
}

/// The bot's decision core: the nomination tag and the tally.
pub struct Bot {
    /// The tag a nomination reply must start with.
    pub tag: Vec<u8>,
    /// The tally of recorded votes.
    pub storage: Storage,
}

/// The ranking request carried by `msg`, if its text parses as a command.
pub open spec fn command_of(msg: IncomingMessage) -> Option<RankingRequest> {
    match msg.text {
        Option::Some(t) => parse_command_spec(t@),
        Option::None => Option::None,
    }
}

/// The replies owed for a batch of ranked ids, threaded into `chat_id`.
pub open spec fn replies_spec(chat_id: i64, ids: Seq<i64>) -> Seq<Reply> {
    Seq::new(ids.len(), |i: int| Reply { chat_id, reply_to_message_id: ids[i] })
}

/// The tally after the vote path of one message.
pub open spec fn after_vote_spec(
    records: Seq<CandidateRecord>,
    msg: IncomingMessage,
    tag: Seq<u8>,
    now: i64,
) -> Seq<CandidateRecord> {
    match extract_candidate_spec(msg, tag) {
        Option::Some(c) => record_vote_spec(records, c, now),
        Option::None => records,
    }
}

/// The replies owed for the command path of one message, ranked against
/// `records` — the tally as it stood before this message's own vote.
pub open spec fn replies_for_spec(
    records: Seq<CandidateRecord>,
    msg: IncomingMessage,
    now: i64,
) -> Seq<Reply> {
    match command_of(msg) {
        Option::Some(req) => replies_spec(
            msg.chat_id,
            top_spec(records, req.top as int, req.days, now),
        ),
        Option::None => Seq::empty(),
    }
}

/// The whole effect of one update handled at time `now`: a plain message
/// answers the command path from the tally as it stood and then records its
/// own nomination; any other update changes nothing and answers nothing.
pub open spec fn update_outcome(
    before: Seq<CandidateRecord>,
    tag: Seq<u8>,
    update: UpdateEvent,
    after: Seq<CandidateRecord>,
    replies: Seq<Reply>,
    now: i64,
) -> bool {
    match update {
        UpdateEvent::Message(msg) => after == after_vote_spec(before, msg, tag, now) && replies
            == replies_for_spec(before, msg, now),
        UpdateEvent::Other => after == before && replies == Seq::<Reply>::empty(),
    }
}

impl Bot {
    /// A bot recognizing `tag`, with no votes recorded yet.
    pub fn new(tag: Vec<u8>) -> (b: Bot)
        ensures
            b.tag@ == tag@,
            b.storage@ == Seq::<CandidateRecord>::empty(),
            b.wf(),
    {
        Bot { tag, storage: Storage::new() }
    }

    /// The tally invariant holds.
    pub open spec fn wf(self) -> bool {
        self.storage.wf()
    }

    /// Processes one inbound plain message at time `now`: the command path
    /// answers its replies from the tally as it stands, then the vote path
    /// records this message's nomination, if it carries one.
    pub fn handle_message(&mut self, msg: &IncomingMessage, now: i64) -> (replies: Vec<Reply>)
        requires
            old(self).wf(),
        ensures
            final(self).wf(),
            final(self).tag@ == old(self).tag@,
            final(self).storage@ == after_vote_spec(old(self).storage@, *msg, old(self).tag@, now),
            replies@ == replies_for_spec(old(self).storage@, *msg, now),
    {
        let mut replies: Vec<Reply> = Vec::new();
        if let Option::Some(text) = &msg.text {
            if let Option::Some(req) = parse_command(text.as_slice()) {
                let ids = self.storage.top(&req, now);
                let mut i: usize = 0;
                while i < ids.len()
                    invariant
                        i <= ids@.len(),
                        replies@.len() == i,
                        forall|k: int|
                            0 <= k < i ==> replies@[k] == (Reply {
                                chat_id: msg.chat_id,
                                reply_to_message_id: ids@[k],
                            }),
                    decreases ids@.len() - i,
                {
                    replies.push(Reply { chat_id: msg.chat_id, reply_to_message_id: ids[i] });
                    i = i + 1;
                }
                proof {
                    assert(replies@ =~= replies_spec(msg.chat_id, ids@));
                }
            }
        }
        match extract_candidate(msg, self.tag.as_slice()) {
            Option::Some(c) => self.storage.record_vote(c, now),
            Option::None => {},
        }
        replies
    }

    /// Processes one inbound update; only plain messages have any effect.
    pub fn handle_update(&mut self, update: &UpdateEvent, now: i64) -> (replies: Vec<Reply>)
        requires
            old(self).wf(),
        ensures
            final(self).wf(),
            final(self).tag@ == old(self).tag@,
            update_outcome(
                old(self).storage@,
                old(self).tag@,
                *update,
                final(self).storage@,
                replies@,
                now,
            ),
    {
        match update {
            UpdateEvent::Message(msg) => self.handle_message(msg, now),
            UpdateEvent::Other => Vec::new(),
        }
    }

    /// Processes one inbound update at the current wall-clock time. The
    /// clock is read once; every decision is that of `handle_update` for
    /// that single time value, whatever the clock reported.
    pub fn handle_update_now(&mut self, update: &UpdateEvent) -> (replies: Vec<Reply>)
        requires
            old(self).wf(),
        ensures
            final(self).wf(),
            final(self).tag@ == old(self).tag@,
            exists|now: i64| #[trigger]
                update_outcome(
                    old(self).storage@,
                    old(self).tag@,
                    *update,
                    final(self).storage@,
                    replies@,
                    now,
                ),
    {
        let now = now_seconds();
        let replies = self.handle_update(update, now);
        proof {
            assert(update_outcome(
                old(self).storage@,
                old(self).tag@,
                *update,
                self.storage@,
                replies@,
                now,
            ));
        }
        replies
    }
}

} // verus!
