use dd_discord::db::{Action, CustomID, Db, DbError, VoteDialog, Voting};
use dd_discord::util;

fn create_test_db() -> Db {
    let bytes: Vec<u8> = (0..16).map(|_| rand::random::<u8>()).collect();
    let path = format!("/tmp/dd_discord_test_{}.redb", hex::encode(bytes));
    Db::open(&path).expect("failed to open test database")
}

fn sample_voting(id: &str, name: &str) -> Voting {
    Voting {
        id: id.to_string(),
        name: name.to_string(),
        choices: vec!["choice1".to_string(), "choice2".to_string()],
        is_completed: false,
        is_deleted: false,
        message_id: "message_id".to_string(),
        channel_id: "channel_id".to_string(),
        creator_message_id: "creator_message_id".to_string(),
        creator_dm_channel_id: "creator_dm_channel_id".to_string(),
    }
}

#[test]
fn save_voting() {
    let mut db = create_test_db();
    let votings = vec![
        sample_voting("84ee17be18185a077db2", "voting1"),
        sample_voting("84ee17be18185a077db3", "voting2"),
        sample_voting("84ee17be18185a077db4", "voting2"),
    ];

    for voting in votings.iter() {
        db.save_voting(voting.clone()).expect("failed to save voting");
    }

    for voting in votings.iter() {
        let v = db.get_voting(&voting.id).expect("failed to get voting");
        assert_eq!(v, *voting);
    }
}

#[test]
fn voting_not_found() {
    let db = create_test_db();
    let voting_id = "84ee17be18185a077db2";

    let err = db.get_voting(voting_id).expect_err("voting should not exist");

    assert_eq!(err, DbError::NotFound);
}

#[test]
fn voting_already_exists() {
    let mut db = create_test_db();
    let voting_id = "84ee17be18185a077db2";
    let voting = sample_voting(voting_id, "voting1");

    db.save_voting(voting.clone()).expect("failed to save voting");

    let err = db.save_voting(voting).expect_err("voting should already exist");

    assert_eq!(err, DbError::AlreadyExists);
}

#[test]
fn complete_voting() {
    let mut db = create_test_db();
    let voting_id = "84ee17be18185a077db2";
    let voting = sample_voting(voting_id, "voting1");

    db.save_voting(voting.clone()).expect("failed to save voting");

    let v = db.get_voting(voting_id).expect("failed to get voting");

    assert_eq!(v.is_completed, false);

    db.complete_voting(voting_id).expect("failed to complete voting");

    let v = db.get_voting(voting_id).expect("failed to get voting");

    assert_eq!(v.is_completed, true);
}

#[test]
fn complete_voting_errors() {
    let mut db = create_test_db();
    let voting_id = "84ee17be18185a077db2";

    let err = db.complete_voting(voting_id).expect_err("voting should not exist");

    assert_eq!(err, DbError::NotFound);

    let mut voting = sample_voting(voting_id, "voting1");
    voting.is_deleted = true;

    db.save_voting(voting.clone()).expect("failed to save voting");

    db.complete_voting(voting_id).expect_err("voting should be deleted");
}

#[test]
fn delete_voting() {
    let mut db = create_test_db();
    let voting_id = "84ee17be18185a077db2";
    let voting = sample_voting(voting_id, "voting1");

    db.save_voting(voting.clone()).expect("failed to save voting");

    let v = db.get_voting(voting_id).expect("failed to get voting");

    assert_eq!(v.is_deleted, false);

    db.delete_voting(voting_id).expect("failed to delete voting");

    let v = db.get_voting(voting_id).expect("failed to get voting");

    assert_eq!(v.is_deleted, true);
}

#[test]
fn test_update_vote() {
    let mut db = create_test_db();
    let voting_id = "voting-id";
    let user_id = "user-id";
    let ballot = vec![0, 0, 0];

    db.save_voting_dialog(
        voting_id.to_string(),
        user_id.to_string(),
        ballot.clone(),
        "message_id".to_string(),
        "channel-id".to_string(),
        false,
    )
    .expect("failed to save voting dialog");

    let mut dialog = db
        .get_voting_dialog(voting_id, user_id)
        .expect("failed to get voting dialog");

    assert_eq!(&dialog.ballot, &ballot);

    db.vote_voting_dialog(voting_id, user_id, 1, 0).expect("failed to update vote");

    let updated_dialog = db
        .get_voting_dialog(voting_id, user_id)
        .expect("failed to get voting dialog");

    dialog.ballot = vec![1, 0, 0];

    assert_eq!(dialog, updated_dialog);
}

#[test]
fn test_update_vote_index_out_of_range() {
    let mut db = create_test_db();
    let voting_id = "voting-id";
    let user_id = "user-id";
    let ballot = vec![0, 0, 0];

    db.save_voting_dialog(
        voting_id.to_string(),
        user_id.to_string(),
        ballot.clone(),
        "message_id".to_string(),
        "channel-id".to_string(),
        false,
    )
    .expect("failed to save voting dialog");

    let err = db
        .vote_voting_dialog(voting_id, user_id, 1, 3)
        .expect_err("should not be able to update vote");

    assert_eq!(err, DbError::IndexOutOfRange);
}

#[test]
fn test_update_vote_voting_dialog_not_found() {
    let mut db = create_test_db();
    let voting_id = "voting-id";
    let user_id = "user-id";

    let err = db
        .vote_voting_dialog(voting_id, user_id, 1, 0)
        .expect_err("should not be able to update vote");

    assert_eq!(err, DbError::NotFound);

    db.save_voting_dialog(
        voting_id.to_string(),
        user_id.to_string(),
        vec![0, 0, 0],
        "message-id".to_string(),
        "channel-id".to_string(),
        false,
    )
    .expect("failed to save voting dialog");

    let err = db
        .vote_voting_dialog(voting_id, "", 1, 0)
        .expect_err("should not be able to update vote");

    assert_eq!(err, DbError::NotFound);
}

#[test]
fn test_save_voting_dialog() {
    let mut db = create_test_db();
    let voting_id = "voting-id";
    let user_id = "user-id";
    let ballot = vec![0, 0, 0];

    db.save_voting_dialog(
        voting_id.to_string(),
        user_id.to_string(),
        ballot.clone(),
        "message_id".to_string(),
        "channel-id".to_string(),
        true,
    )
    .expect("failed to save voting dialog");

    let dialog = db
        .get_voting_dialog(voting_id, user_id)
        .expect("failed to get voting dialog");

    assert_eq!(dialog.voting_id, voting_id);
    assert_eq!(dialog.user_id, user_id);
    assert_eq!(dialog.ballot, ballot);
}

#[test]
fn test_get_voting_dialog_not_found() {
    let db = create_test_db();
    let voting_id = "voting-id";
    let user_id = "user-id";

    let err = db
        .get_voting_dialog(voting_id, user_id)
        .expect_err("voting dialog should not exist");

    assert_eq!(err, DbError::NotFound);
}

#[test]
fn test_delete_voting_dialog() {
    let mut db = create_test_db();
    let voting_id = "voting-id";
    let user_id = "user-id";
    let ballot = vec![0, 0, 0];

    db.delete_voting_dialog(voting_id, user_id).expect("failed to delete voting dialog");

    db.save_voting_dialog(
        voting_id.to_string(),
        user_id.to_string(),
        ballot.clone(),
        "message_id".to_string(),
        "channel-id".to_string(),
        false,
    )
    .expect("failed to save voting dialog");

    let dialog = db
        .get_voting_dialog(voting_id, user_id)
        .expect("failed to get voting dialog");

    assert_eq!(dialog.voting_id, voting_id);
    assert_eq!(dialog.user_id, user_id);
    assert_eq!(dialog.ballot, ballot);

    db.delete_voting_dialog(voting_id, user_id).expect("failed to delete voting dialog");

    let err = db
        .get_voting_dialog(voting_id, user_id)
        .expect_err("voting dialog should not exist");

    assert_eq!(err, DbError::NotFound);
}

fn generate_random_hex_string(length: usize) -> String {
    let bytes: Vec<u8> = (0..length / 2).map(|_| rand::random::<u8>()).collect();
    hex::encode(bytes)
}

#[test]
fn test_get_voting_dialogs() {
    let mut db = create_test_db();
    let voting_id1 = "84ee17be18185a077db2";
    let voting_id2 = "84ee17be18185a077db3";
    let ballot = vec![0, 0, 0];

    for _ in 0..100 {
        let user_id = generate_random_hex_string(20);
        db.save_voting_dialog(
            voting_id1.to_string(),
            user_id.to_string(),
            ballot.clone(),
            "message_id".to_string(),
            "channel_id".to_string(),
            false,
        )
        .expect("failed to save voting dialog");
    }

    for _ in 0..10 {
        let user_id = generate_random_hex_string(20);
        db.save_voting_dialog(
            voting_id2.to_string(),
            user_id.to_string(),
            ballot.clone(),
            "message_id".to_string(),
            "channel_id".to_string(),
            false,
        )
        .expect("failed to save voting dialog");
    }

    let dialogs = db.get_voting_dialogs(voting_id1).expect("failed to get voting dialogs");

    assert_eq!(dialogs.len(), 100);

    let dialogs = db.get_voting_dialogs(voting_id2).expect("failed to get voting dialogs");

    assert_eq!(dialogs.len(), 10);
}

#[test]
fn test_custom_id() {
    let mut db = create_test_db();
    let voting_id = "84ee17be18185a077db2";
    let user_id = "user_id";
    let custom_id = "custom_id";

    let err = db.get_custom_id(custom_id).expect_err("custom id should not exist");

    assert_eq!(err, DbError::NotFound);

    let custom_uuid = util::generate_random_custom_uuid();
    let custom_id = CustomID {
        action: Action::VoteFromChannel,
        voting_id: voting_id.to_string(),
        user_id: Some(user_id.to_string()),
        page: None,
        index: None,
    };

    db.bulk_save_custom_ids(vec![(custom_uuid.clone(), custom_id)])
        .expect("failed to save custom id");

    let custom_id = db.get_custom_id(&custom_uuid).expect("failed to get custom id");

    assert_eq!(custom_id.voting_id, voting_id);
    assert_eq!(custom_id.user_id.unwrap(), user_id);

    let custom_ids = db.get_custom_ids(voting_id).expect("failed to get custom ids");

    assert_eq!(custom_ids.len(), 1);

    let custom_uuid2 = util::generate_random_custom_uuid();
    let custom_uuid3 = util::generate_random_custom_uuid();
    let custom_id2 = CustomID {
        action: Action::VoteFromChannel,
        voting_id: voting_id.to_string(),
        user_id: Some(user_id.to_string()),
        page: None,
        index: None,
    };
    let custom_id3 = CustomID {
        action: Action::VoteFromChannel,
        voting_id: voting_id.to_string(),
        user_id: Some(user_id.to_string()),
        page: None,
        index: None,
    };

    // voting 2
    let voting_id2 = "84ee17be18185a077db3".to_string();
    let custom_uuid4 = util::generate_random_custom_uuid();
    let custom_id4 = CustomID {
        action: Action::VoteFromChannel,
        voting_id: voting_id2.clone(),
        user_id: Some(user_id.to_string()),
        page: None,
        index: None,
    };

    db.bulk_save_custom_ids(vec![
        (custom_uuid2, custom_id2),
        (custom_uuid3, custom_id3),
        (custom_uuid4, custom_id4),
    ])
    .expect("failed to save custom id");

    let custom_ids = db.get_custom_ids(voting_id).expect("failed to get custom ids");

    assert_eq!(custom_ids.len(), 3);

    let custom_ids = db.get_custom_ids(&voting_id2).expect("failed to get custom ids");

    assert_eq!(custom_ids.len(), 1);

    db.delete_custom_ids(voting_id).expect("failed to delete custom ids");

    let custom_ids = db.get_custom_ids(voting_id).expect("failed to get custom ids");

    assert_eq!(custom_ids.len(), 0);

    let custom_ids = db.get_custom_ids(&voting_id2).expect("failed to get custom ids");

    assert_eq!(custom_ids.len(), 1);
}

#[test]
fn test_delete_custom_ids() {
    let mut db = create_test_db();

    let voting_id1 = "voting-id1";
    let user_id1 = "user-id1";
    let voting_id2 = "voting-id2";
    let user_id2 = "user-id2";

    for _ in 0..10 {
        let custom_uuid = util::generate_random_custom_uuid();
        let custom_id = CustomID {
            action: Action::VoteFromChannel,
            voting_id: voting_id1.to_string(),
            user_id: Some(user_id1.to_string()),
            page: None,
            index: None,
        };

        db.bulk_save_custom_ids(vec![(custom_uuid, custom_id)])
            .expect("failed to save custom id");
    }

    for _ in 0..5 {
        let custom_uuid = util::generate_random_custom_uuid();
        let custom_id = CustomID {
            action: Action::VoteFromChannel,
            voting_id: voting_id2.to_string(),
            user_id: Some(user_id2.to_string()),
            page: None,
            index: None,
        };

        db.bulk_save_custom_ids(vec![(custom_uuid, custom_id)])
            .expect("failed to save custom id");
    }

    db.delete_custom_ids(voting_id1).expect("failed to delete custom ids");

    let custom_ids = db.get_custom_ids(voting_id1).expect("failed to get custom ids");

    assert_eq!(custom_ids.len(), 0);

    db.delete_custom_ids(voting_id2).expect("failed to delete custom ids");

    let custom_ids = db.get_custom_ids(voting_id2).expect("failed to get custom ids");

    assert_eq!(custom_ids.len(), 0);
}

#[test]
fn overwrite_voting_dialog_replaces() {
    let mut db = create_test_db();
    let voting_id = "voting-id";
    let user_id = "user-id";

    db.save_voting_dialog(
        voting_id.to_string(),
        user_id.to_string(),
        vec![0, 0],
        "m1".to_string(),
        "c1".to_string(),
        false,
    )
    .expect("failed to save voting dialog");

    db.save_voting_dialog(
        voting_id.to_string(),
        user_id.to_string(),
        vec![2, 1],
        "m2".to_string(),
        "c2".to_string(),
        true,
    )
    .expect("overwrite should replace silently");

    let dialog = db
        .get_voting_dialog(voting_id, user_id)
        .expect("failed to get voting dialog");

    assert_eq!(dialog.ballot, vec![2, 1]);
    assert_eq!(dialog.message_id, "m2");
    assert_eq!(dialog.channel_id, "c2");
}

#[test]
fn save_voting_dialog_already_exists() {
    let mut db = create_test_db();
    let voting_id = "voting-id";
    let user_id = "user-id";

    db.save_voting_dialog(
        voting_id.to_string(),
        user_id.to_string(),
        vec![0],
        "m".to_string(),
        "c".to_string(),
        false,
    )
    .expect("failed to save voting dialog");

    let err = db
        .save_voting_dialog(
            voting_id.to_string(),
            user_id.to_string(),
            vec![0],
            "m".to_string(),
            "c".to_string(),
            false,
        )
        .expect_err("second save without overwrite should fail");

    assert_eq!(err, DbError::AlreadyExists);
}

#[test]
fn delete_voting_errors() {
    let mut db = create_test_db();
    let voting_id = "84ee17be18185a077db2";

    let err = db.delete_voting(voting_id).expect_err("voting should not exist");

    assert_eq!(err, DbError::NotFound);

    db.save_voting(sample_voting(voting_id, "voting1")).expect("failed to save voting");

    db.delete_voting(voting_id).expect("failed to delete voting");

    let err = db
        .delete_voting(voting_id)
        .expect_err("deleting a deleted voting should fail");

    assert_eq!(err, DbError::NotFound);
}

#[test]
fn delete_voting_dialog_twice() {
    let mut db = create_test_db();
    let voting_id = "voting-id";
    let user_id = "user-id";

    db.save_voting_dialog(
        voting_id.to_string(),
        user_id.to_string(),
        vec![0],
        "m".to_string(),
        "c".to_string(),
        false,
    )
    .expect("failed to save voting dialog");

    db.delete_voting_dialog(voting_id, user_id).expect("failed to delete voting dialog");
    db.delete_voting_dialog(voting_id, user_id).expect("second delete should also succeed");

    let err = db
        .get_voting_dialog(voting_id, user_id)
        .expect_err("voting dialog should not exist");

    assert_eq!(err, DbError::NotFound);
}

#[test]
fn adjacent_voting_ids_do_not_leak() {
    let mut db = create_test_db();
    // "a" and "a-b" are lexicographically adjacent in a way that a raw
    // prefix scan from "a-" would mix up without the stored-id check.
    db.save_voting_dialog(
        "a".to_string(),
        "u1".to_string(),
        vec![0],
        "m".to_string(),
        "c".to_string(),
        false,
    )
    .expect("failed to save voting dialog");
    db.save_voting_dialog(
        "a-b".to_string(),
        "u2".to_string(),
        vec![0],
        "m".to_string(),
        "c".to_string(),
        false,
    )
    .expect("failed to save voting dialog");

    let dialogs = db.get_voting_dialogs("a").expect("failed to get voting dialogs");
    assert_eq!(dialogs.len(), 1);
    assert_eq!(dialogs[0].user_id, "u1");
}
