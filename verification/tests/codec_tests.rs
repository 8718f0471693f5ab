use dd_discord::db::{Action, CustomID, VoteDialog, Voting};
use dd_discord::entities::{
    decode_custom, decode_dialog, decode_voting, encode_custom, encode_dialog, encode_voting,
};
use dd_discord::keys::encode_key;

#[test]
fn voting_round_trip() {
    let voting = Voting {
        id: "84ee17be18185a077db2".to_string(),
        name: "a voting: with punctuation; and 3 digits".to_string(),
        choices: vec!["Spinoza".to_string(), "Kant".to_string(), "Nietzsche".to_string()],
        is_completed: true,
        is_deleted: false,
        message_id: "319674150115610528".to_string(),
        channel_id: "82198898841029460".to_string(),
        creator_message_id: "1187315505103638638".to_string(),
        creator_dm_channel_id: "812746127846424".to_string(),
    };

    let text = encode_voting(&voting);
    let back = decode_voting(&text).expect("encoded voting should decode");
    assert_eq!(back, voting);
}

#[test]
fn voting_round_trip_empty_fields() {
    let voting = Voting {
        id: String::new(),
        name: String::new(),
        choices: vec![],
        is_completed: false,
        is_deleted: true,
        message_id: String::new(),
        channel_id: String::new(),
        creator_message_id: String::new(),
        creator_dm_channel_id: String::new(),
    };

    let text = encode_voting(&voting);
    let back = decode_voting(&text).expect("encoded voting should decode");
    assert_eq!(back, voting);
}

#[test]
fn dialog_round_trip() {
    let dialog = VoteDialog {
        voting_id: "voting-id".to_string(),
        user_id: "user-id".to_string(),
        ballot: vec![3, 0, -7, i32::MAX, i32::MIN],
        message_id: "message_id".to_string(),
        channel_id: "channel-id".to_string(),
    };

    let text = encode_dialog(&dialog);
    let back = decode_dialog(&text).expect("encoded dialog should decode");
    assert_eq!(back, dialog);
}

#[test]
fn dialog_encoding_exact() {
    let dialog = VoteDialog {
        voting_id: "voting-id".to_string(),
        user_id: "user-id".to_string(),
        ballot: vec![0, 0, 0],
        message_id: "message_id".to_string(),
        channel_id: "channel-id".to_string(),
    };

    let text = encode_dialog(&dialog);
    assert_eq!(text, "9:voting-id7:user-id3;+0;+0;+0;10:message_id10:channel-id");
    assert_eq!(decode_dialog(&text).unwrap(), dialog);
}

#[test]
fn custom_id_round_trip_all_actions() {
    let actions = vec![
        Action::VoteFromChannel,
        Action::VoteFromDM,
        Action::VoteSelect,
        Action::VoteNext,
        Action::VotePrevious,
        Action::Complete,
        Action::Delete,
    ];
    for action in actions {
        let custom_id = CustomID {
            action: action.clone(),
            voting_id: "84ee17be18185a077db2".to_string(),
            user_id: Some("user_id".to_string()),
            page: Some(3),
            index: None,
        };
        let text = encode_custom(&custom_id);
        let back = decode_custom(&text).expect("encoded custom id should decode");
        assert_eq!(back, custom_id);
    }
}

#[test]
fn custom_id_round_trip_no_options() {
    let custom_id = CustomID {
        action: Action::Delete,
        voting_id: "v".to_string(),
        user_id: None,
        page: None,
        index: Some(usize::MAX),
    };
    let text = encode_custom(&custom_id);
    let back = decode_custom(&text).expect("encoded custom id should decode");
    assert_eq!(back, custom_id);
}

#[test]
fn decode_rejects_garbage() {
    assert!(decode_voting("").is_none());
    assert!(decode_voting("not an encoded voting").is_none());
    assert!(decode_dialog("9:voting-id").is_none());
    assert!(decode_custom("x").is_none());
    // trailing garbage after a well-formed dialog is rejected too
    assert!(decode_dialog("9:voting-id7:user-id3;+0;+0;+0;10:message_id10:channel-idX").is_none());
}

#[test]
fn composite_key_layout() {
    assert_eq!(encode_key("voting-id", "user-id"), "voting-id-user-id");
    assert_eq!(encode_key("", ""), "-");
}
