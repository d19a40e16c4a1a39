//! Candidate extraction: turning a tag-prefixed reply into the candidate it
//! nominates.
//!
//! A message nominates a candidate exactly when it carries text starting
//! with the configured tag (an exact, case-sensitive prefix) and replies to
//! a message sent in a recognized group context. Anything else yields no
//! candidate, silently.

use vstd::prelude::*;

use crate::model::Candidate;

verus! {

/// Where a replied-to message was sent: a recognized group chat, carrying
/// the chat and sender ids, or any other context (a private chat, a
/// channel, ...), which never yields a vote.
#[derive(Clone, Copy, Debug, PartialEq, Eq, Structural)]
pub enum ChatContext {
    Group { chat_id: i64, sender_id: i64 },
    Other,
}

/// The message a nomination reply points at.
#[derive(Clone, Copy, Debug, PartialEq, Eq, Structural)]
pub struct RepliedMessage {
    /// Platform-assigned id of the replied-to message.
    pub id: i64,
    /// The context the replied-to message was sent in.
    pub context: ChatContext,
}

/// An inbound plain message, reduced to what the bot reads: the chat it
/// came from, its text as bytes, and the message it replies to, if any.
#[derive(Debug)]
pub struct IncomingMessage {
    /// Id of the chat the message arrived in; ranking replies go there.
    pub chat_id: i64,
    /// The text content, absent for non-text messages.
    pub text: Option<Vec<u8>>,
    /// The replied-to message, absent when the message is no reply.
    pub reply_to: Option<RepliedMessage>,
}

/// Is `pre` a prefix of `s`?
pub open spec fn is_prefix(pre: Seq<u8>, s: Seq<u8>) -> bool {
    pre.len() <= s.len() && pre == s.subrange(0, pre.len() as int)
}

/// The candidate nominated by `msg`, if any: its text must be non-empty and
/// start with `tag`, and it must reply to a message from a recognized group,
/// whose id, sender and chat become the candidate triple.
pub open spec fn extract_candidate_spec(msg: IncomingMessage, tag: Seq<u8>) -> Option<Candidate> {
    match msg.text {
        Option::Some(text) => if text@.len() > 0 && is_prefix(tag, text@) {
            match msg.reply_to {
                Option::Some(replied) => match replied.context {
                    ChatContext::Group { chat_id, sender_id } => Option::Some(
                        Candidate {
                            message_id: replied.id,
                            user_id: sender_id,
                            group_id: chat_id,
                        },
                    ),
                    ChatContext::Other => Option::None,
                },
                Option::None => Option::None,
            }
        } else {
            Option::None
        },
        Option::None => Option::None,
    }
}

/// A message that does not reply to a recognized group message — a private
/// chat, a channel, or no reply at all — never yields a vote, whatever its
/// text says.
pub proof fn lemma_non_group_reply_no_vote(msg: IncomingMessage, tag: Seq<u8>)
    requires
        (match msg.reply_to {
            Option::Some(replied) => !(replied.context matches ChatContext::Group { .. }),
            Option::None => true,
        }),
    ensures
        extract_candidate_spec(msg, tag) is None,
{
}

/// Byte-wise prefix test.
fn starts_with_bytes(s: &[u8], pre: &[u8]) -> (r: bool)
    ensures
        r == is_prefix(pre@, s@),
{
    if pre.len() > s.len() {
        return false;
    }
    let mut i: usize = 0;
    while i < pre.len()
        invariant
            0 <= i <= pre@.len() <= s@.len(),
            forall|k: int| 0 <= k < i ==> pre@[k] == s@[k],
        decreases pre@.len() - i,
    {
        if pre[i] != s[i] {
            proof {
                assert(s@.subrange(0, pre@.len() as int)[i as int] == s@[i as int]);
            }
            return false;
        }
        i = i + 1;
    }
    proof {
        assert(pre@ =~= s@.subrange(0, pre@.len() as int));
    }
    true
}

/// Turns a nomination reply into the candidate it nominates; any message
/// that fails a constraint yields `None`, silently.
pub fn extract_candidate(msg: &IncomingMessage, tag: &[u8]) -> (r: Option<Candidate>)
    ensures
        r == extract_candidate_spec(*msg, tag@),
{
    let text = match &msg.text {
        Option::Some(t) => t,
        Option::None => { return Option::None },
    };
    if text.len() == 0 || !starts_with_bytes(text.as_slice(), tag) {
        return Option::None;
    }
    let replied = match &msg.reply_to {
        Option::Some(r) => r,
        Option::None => { return Option::None },
    };
    match replied.context {
        ChatContext::Group { chat_id, sender_id } => Option::Some(
            Candidate { message_id: replied.id, user_id: sender_id, group_id: chat_id },
        ),
        ChatContext::Other => Option::None,
    }
}

} // verus!
