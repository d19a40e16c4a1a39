use topbot::extract::{extract_candidate, ChatContext, IncomingMessage, RepliedMessage};
use topbot::model::Candidate;

fn group_reply(id: i64, sender_id: i64, chat_id: i64) -> Option<RepliedMessage> {
    Some(RepliedMessage {
        id,
        context: ChatContext::Group { chat_id, sender_id },
    })
}

#[test]
fn extracts_candidate_from_tagged_group_reply() {
    let msg = IncomingMessage {
        chat_id: 1,
        text: Some(b"#best well said".to_vec()),
        reply_to: group_reply(42, 7, 1),
    };
    assert_eq!(
        extract_candidate(&msg, b"#best"),
        Some(Candidate {
            message_id: 42,
            user_id: 7,
            group_id: 1,
        })
    );
}

#[test]
fn private_chat_reply_yields_no_vote() {
    let msg = IncomingMessage {
        chat_id: 1,
        text: Some(b"#best well said".to_vec()),
        reply_to: Some(RepliedMessage {
            id: 42,
            context: ChatContext::Other,
        }),
    };
    assert_eq!(extract_candidate(&msg, b"#best"), None);
}

#[test]
fn non_reply_yields_no_vote() {
    let msg = IncomingMessage {
        chat_id: 1,
        text: Some(b"#best well said".to_vec()),
        reply_to: None,
    };
    assert_eq!(extract_candidate(&msg, b"#best"), None);
}

#[test]
fn tag_must_be_an_exact_prefix() {
    let late_tag = IncomingMessage {
        chat_id: 1,
        text: Some(b"so #best".to_vec()),
        reply_to: group_reply(42, 7, 1),
    };
    assert_eq!(extract_candidate(&late_tag, b"#best"), None);
    let wrong_case = IncomingMessage {
        chat_id: 1,
        text: Some(b"#Best".to_vec()),
        reply_to: group_reply(42, 7, 1),
    };
    assert_eq!(extract_candidate(&wrong_case, b"#best"), None);
}

#[test]
fn empty_text_yields_no_vote() {
    // Even an empty tag is a prefix of empty text, but the text must be
    // non-empty to nominate anything.
    let msg = IncomingMessage {
        chat_id: 1,
        text: Some(Vec::new()),
        reply_to: group_reply(42, 7, 1),
    };
    assert_eq!(extract_candidate(&msg, b""), None);
}

#[test]
fn textless_message_yields_no_vote() {
    let msg = IncomingMessage {
        chat_id: 1,
        text: None,
        reply_to: group_reply(42, 7, 1),
    };
    assert_eq!(extract_candidate(&msg, b"#best"), None);
}
