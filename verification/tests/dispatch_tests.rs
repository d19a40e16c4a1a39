use topbot::dispatch::{Bot, Reply, UpdateEvent};
use topbot::extract::{ChatContext, IncomingMessage, RepliedMessage};
use topbot::model::Candidate;

fn nomination(chat_id: i64, target_id: i64, author_id: i64, group_id: i64) -> IncomingMessage {
    IncomingMessage {
        chat_id,
        text: Some(b"#nom nice one".to_vec()),
        reply_to: Some(RepliedMessage {
            id: target_id,
            context: ChatContext::Group {
                chat_id: group_id,
                sender_id: author_id,
            },
        }),
    }
}

fn command(chat_id: i64, text: &[u8]) -> IncomingMessage {
    IncomingMessage {
        chat_id,
        text: Some(text.to_vec()),
        reply_to: None,
    }
}

#[test]
fn nominate_twice_then_rank() {
    let mut bot = Bot::new(b"#nom".to_vec());
    assert_eq!(bot.handle_message(&nomination(1, 42, 7, 1), 1000), vec![]);
    assert_eq!(bot.handle_message(&nomination(1, 42, 7, 1), 1100), vec![]);

    let records = bot.storage.records();
    assert_eq!(records.len(), 1);
    assert_eq!(
        records[0].candidate,
        Candidate {
            message_id: 42,
            user_id: 7,
            group_id: 1,
        }
    );
    assert_eq!(records[0].votes, 2);
    assert_eq!(records[0].created, 1000);

    // Same day, a bit later: exactly one reply, aimed at message 42.
    let replies = bot.handle_message(&command(1, b"/top 1 1"), 1500);
    assert_eq!(
        replies,
        vec![Reply {
            chat_id: 1,
            reply_to_message_id: 42,
        }]
    );
}

#[test]
fn both_paths_fire_on_one_message() {
    // A nomination whose text is itself a command: the command path answers
    // from the tally as it stood, the vote path then records the nomination.
    let mut bot = Bot::new(b"/top".to_vec());
    let msg = IncomingMessage {
        chat_id: 1,
        text: Some(b"/top 5 365".to_vec()),
        reply_to: Some(RepliedMessage {
            id: 42,
            context: ChatContext::Group {
                chat_id: 1,
                sender_id: 7,
            },
        }),
    };
    let replies = bot.handle_message(&msg, 1000);
    assert_eq!(replies, vec![]); // the tally was empty when the command ran
    assert_eq!(bot.storage.records().len(), 1); // but the vote is recorded
}

#[test]
fn replies_follow_the_ranking() {
    let mut bot = Bot::new(b"#nom".to_vec());
    bot.handle_message(&nomination(1, 10, 7, 1), 1000);
    bot.handle_message(&nomination(1, 20, 8, 1), 1000);
    bot.handle_message(&nomination(1, 20, 8, 1), 1000);
    let replies = bot.handle_message(&command(5, b"/top 2 1"), 2000);
    assert_eq!(
        replies,
        vec![
            Reply {
                chat_id: 5,
                reply_to_message_id: 20,
            },
            Reply {
                chat_id: 5,
                reply_to_message_id: 10,
            },
        ]
    );
}

#[test]
fn non_message_updates_are_ignored() {
    let mut bot = Bot::new(b"#nom".to_vec());
    bot.handle_message(&nomination(1, 42, 7, 1), 1000);
    let replies = bot.handle_update(&UpdateEvent::Other, 2000);
    assert_eq!(replies, vec![]);
    assert_eq!(bot.storage.records().len(), 1);
}

#[test]
fn wall_clock_nomination_is_recorded() {
    let mut bot = Bot::new(b"#nom".to_vec());
    let replies = bot.handle_update_now(&UpdateEvent::Message(nomination(1, 42, 7, 1)));
    assert_eq!(replies, vec![]);
    let records = bot.storage.records();
    assert_eq!(records.len(), 1);
    assert_eq!(records[0].votes, 1);
    assert!(records[0].created >= 0);
}
