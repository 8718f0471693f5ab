//! The storage engine: atomic create/read/update/delete over four sorted
//! string tables, a derived secondary index kept consistent with its
//! primary table, and ordered range scans with prefix termination.
//!
//! Every operation runs inside one write transaction of the embedded store
//! and states, over the four table maps, exactly what it read and wrote.
//! Callers never see the store's own error type: every failure is one of
//! the four kinds of [`DbError`].

use crate::chars::str_eq;
use crate::entities::{
    dec_custom, dec_dialog, dec_voting, decode_custom, decode_dialog, decode_voting, enc_custom,
    enc_dialog, enc_voting, encode_custom, encode_dialog, encode_voting, CustomIDV, DialogV,
    VotingV,
};
use crate::keys::{
    composite_key, encode_key, encode_scan_prefix, has_prefix, scan_prefix, scan_result,
};
use crate::store::{
    begin_txn, commit_txn, custom_id_table, dialog_table, index_table, open_database,
    txn_custom, txn_custom_get, txn_custom_insert, txn_custom_remove, txn_dialog,
    txn_dialog_get, txn_dialog_insert, txn_dialog_remove, txn_dialog_scan_from, txn_index,
    txn_index_insert, txn_index_remove, txn_index_scan_from, txn_voting, txn_voting_get,
    txn_voting_insert, voting_table,
};
use vstd::prelude::*;
use vstd::string::StringExecFns;

pub use crate::entities::{Action, CustomID, VoteDialog, Voting};

verus! {

/// Why a storage operation failed.
#[derive(Debug, PartialEq, Eq)]
pub enum DbError {
    NotFound,
    IndexOutOfRange,
    AlreadyExists,
    Other(String),
}

/// A handle on the store and its four tables.
pub struct Db {
    db: redb::Database,
}

/// Open (creating if absent) the store at the fixed default path.
///
/// Relies on redb's `Database::create`; panics if the store file cannot be
/// created, as the surrounding program cannot run without its store.
#[verifier::external_body]
#[must_use]
pub fn new() -> Db {
    let db = redb::Database::create("voting.redb").expect("failed to create database");
    Db { db }
}

impl Db {
    /// Contents of the voting table, keyed by voting id.
    pub closed spec fn votings(self) -> Map<Seq<char>, Seq<char>> {
        voting_table(self.db)
    }

    /// Contents of the vote-dialog table, keyed by voting id and user id.
    pub closed spec fn dialogs(self) -> Map<Seq<char>, Seq<char>> {
        dialog_table(self.db)
    }

    /// Contents of the custom-id table, keyed by opaque token.
    pub closed spec fn custom_ids(self) -> Map<Seq<char>, Seq<char>> {
        custom_id_table(self.db)
    }

    /// Contents of the derived index, keyed by voting id and token.
    pub closed spec fn custom_index(self) -> Map<Seq<char>, Seq<char>> {
        index_table(self.db)
    }

    /// Open (creating if absent) the store at the given path.
    pub fn open(path: &str) -> (r: Result<Db, DbError>) {
        match open_database(path) {
            Ok(db) => Ok(Db { db }),
            Err(e) => Err(DbError::Other(e)),
        }
    }
}

/// The voting stored under `id`, if present and readable.
pub open spec fn voting_at(m: Map<Seq<char>, Seq<char>>, id: Seq<char>) -> Option<VotingV> {
    if m.contains_key(id) {
        dec_voting(m[id])
    } else {
        None
    }
}

/// The vote dialog stored under the composite key `k`, if present and
/// readable.
pub open spec fn dialog_at(m: Map<Seq<char>, Seq<char>>, k: Seq<char>) -> Option<DialogV> {
    if m.contains_key(k) {
        dec_dialog(m[k])
    } else {
        None
    }
}

/// The custom-id payload stored under token `k`, if present and readable.
pub open spec fn custom_at(m: Map<Seq<char>, Seq<char>>, k: Seq<char>) -> Option<CustomIDV> {
    if m.contains_key(k) {
        dec_custom(m[k])
    } else {
        None
    }
}

/// The dialogs a scan yields for a voting id: every entry's value decoded
/// in key order, keeping those whose stored voting id equals the query; an
/// unreadable value fails the whole walk.
pub open spec fn filter_dialogs(es: Seq<(Seq<char>, Seq<char>)>, vid: Seq<char>) -> Option<
    Seq<DialogV>,
>
    decreases es.len(),
{
    if es.len() == 0 {
        Some(Seq::<DialogV>::empty())
    } else {
        match dec_dialog(es[0].1) {
            Option::Some(d) => match filter_dialogs(es.drop_first(), vid) {
                Option::Some(rest) => if d.voting_id == vid {
                    Some(seq![d] + rest)
                } else {
                    Some(rest)
                },
                Option::None => None,
            },
            Option::None => None,
        }
    }
}

/// The payloads resolved from index entries, in key order: entries outside
/// the prefix run contribute nothing, a token absent from the custom-id
/// table is skipped, an unreadable payload fails the walk.
pub open spec fn resolve_customs(
    customs: Map<Seq<char>, Seq<char>>,
    es: Seq<(Seq<char>, Seq<char>)>,
    p: Seq<char>,
) -> Option<Seq<CustomIDV>>
    decreases es.len(),
{
    if es.len() == 0 {
        Some(Seq::<CustomIDV>::empty())
    } else if !has_prefix(es[0].0, p) {
        resolve_customs(customs, es.drop_first(), p)
    } else if !customs.contains_key(es[0].1) {
        resolve_customs(customs, es.drop_first(), p)
    } else {
        match dec_custom(customs[es[0].1]) {
            Option::Some(c) => match resolve_customs(customs, es.drop_first(), p) {
                Option::Some(rest) => Some(seq![c] + rest),
                Option::None => None,
            },
            Option::None => None,
        }
    }
}

/// The initial run of scan entries carrying the prefix.
pub open spec fn prefix_matched(es: Seq<(Seq<char>, Seq<char>)>, p: Seq<char>) -> Seq<
    (Seq<char>, Seq<char>),
>
    decreases es.len(),
{
    if es.len() == 0 {
        Seq::<(Seq<char>, Seq<char>)>::empty()
    } else if has_prefix(es[0].0, p) {
        seq![es[0]] + prefix_matched(es.drop_first(), p)
    } else {
        prefix_matched(es.drop_first(), p)
    }
}

/// The keys of a run of entries.
pub open spec fn entry_keys(es: Seq<(Seq<char>, Seq<char>)>) -> Set<Seq<char>> {
    es.map_values(|e: (Seq<char>, Seq<char>)| e.0).to_set()
}

/// The values of a run of entries.
pub open spec fn entry_tokens(es: Seq<(Seq<char>, Seq<char>)>) -> Set<Seq<char>> {
    es.map_values(|e: (Seq<char>, Seq<char>)| e.1).to_set()
}

/// The custom-id table after writing each pair's payload under its token,
/// in order.
pub open spec fn bulk_customs(
    m: Map<Seq<char>, Seq<char>>,
    pairs: Seq<(Seq<char>, CustomIDV)>,
) -> Map<Seq<char>, Seq<char>>
    decreases pairs.len(),
{
    if pairs.len() == 0 {
        m
    } else {
        bulk_customs(m.insert(pairs[0].0, enc_custom(pairs[0].1)), pairs.drop_first())
    }
}

/// The index table after writing each pair's token under its voting's
/// composite key, in order.
pub open spec fn bulk_index(
    m: Map<Seq<char>, Seq<char>>,
    pairs: Seq<(Seq<char>, CustomIDV)>,
) -> Map<Seq<char>, Seq<char>>
    decreases pairs.len(),
{
    if pairs.len() == 0 {
        m
    } else {
        bulk_index(
            m.insert(composite_key(pairs[0].1.voting_id, pairs[0].0), pairs[0].0),
            pairs.drop_first(),
        )
    }
}

/// Entries without the prefix resolve to nothing.
proof fn lemma_resolve_no_prefix(
    customs: Map<Seq<char>, Seq<char>>,
    es: Seq<(Seq<char>, Seq<char>)>,
    p: Seq<char>,
)
    requires
        forall|j: int| 0 <= j < es.len() ==> !has_prefix((#[trigger] es[j]).0, p),
    ensures
        resolve_customs(customs, es, p) == Some(Seq::<CustomIDV>::empty()),
    decreases es.len(),
{
    if es.len() > 0 {
        assert(!has_prefix(es[0].0, p));
        lemma_resolve_no_prefix(customs, es.drop_first(), p);
    }
}

/// Entries without the prefix match nothing.
proof fn lemma_prefix_matched_none(es: Seq<(Seq<char>, Seq<char>)>, p: Seq<char>)
    requires
        forall|j: int| 0 <= j < es.len() ==> !has_prefix((#[trigger] es[j]).0, p),
    ensures
        prefix_matched(es, p) == Seq::<(Seq<char>, Seq<char>)>::empty(),
    decreases es.len(),
{
    if es.len() > 0 {
        assert(!has_prefix(es[0].0, p));
        lemma_prefix_matched_none(es.drop_first(), p);
    }
}

/// From an ascending scan, once one key lacks the prefix every later key
/// does.
proof fn lemma_scan_tail_no_prefix(
    m: Map<Seq<char>, Seq<char>>,
    p: Seq<char>,
    es: Seq<(Seq<char>, Seq<char>)>,
    k: int,
)
    requires
        scan_result(m, p, es),
        0 <= k < es.len(),
        !has_prefix(es[k].0, p),
    ensures
        forall|j: int| k <= j < es.len() ==> !has_prefix((#[trigger] es[j]).0, p),
{
    assert forall|j: int| k <= j < es.len() implies !has_prefix(es[j].0, p) by {
        if j > k {
            crate::keys::lemma_prefix_run_ends(p, es[k].0, es[j].0);
        }
    }
}

/// No table changed between the two states.
pub open spec fn unchanged_tables(pre: Db, post: Db) -> bool {
    &&& post.votings() == pre.votings()
    &&& post.dialogs() == pre.dialogs()
    &&& post.custom_ids() == pre.custom_ids()
    &&& post.custom_index() == pre.custom_index()
}

/// Exactly the voting table changed, to hold `text` under `id`.
pub open spec fn voting_written(pre: Db, post: Db, id: Seq<char>, text: Seq<char>) -> bool {
    &&& post.votings() == pre.votings().insert(id, text)
    &&& post.dialogs() == pre.dialogs()
    &&& post.custom_ids() == pre.custom_ids()
    &&& post.custom_index() == pre.custom_index()
}

/// Exactly the vote-dialog table changed, to hold `text` under `k`.
pub open spec fn dialog_written(pre: Db, post: Db, k: Seq<char>, text: Seq<char>) -> bool {
    &&& post.votings() == pre.votings()
    &&& post.dialogs() == pre.dialogs().insert(k, text)
    &&& post.custom_ids() == pre.custom_ids()
    &&& post.custom_index() == pre.custom_index()
}

/// Exactly the vote-dialog table changed, by dropping the key `k`.
pub open spec fn dialog_removed(pre: Db, post: Db, k: Seq<char>) -> bool {
    &&& post.votings() == pre.votings()
    &&& post.dialogs() == pre.dialogs().remove(k)
    &&& post.custom_ids() == pre.custom_ids()
    &&& post.custom_index() == pre.custom_index()
}

impl Db {
    /// Save a new voting.  Fails `AlreadyExists` if a voting with the same
    /// id is already stored, leaving everything unchanged.
    pub fn save_voting(&mut self, voting: Voting) -> (r: Result<(), DbError>)
        ensures
            match r {
                Result::Ok(()) => !old(self).votings().contains_key(voting.id@)
                    && voting_written(*old(self), *final(self), voting.id@, enc_voting(voting@))
                    && crate::entities::voting_wf(voting@),
                Result::Err(DbError::AlreadyExists) => old(self).votings().contains_key(voting.id@)
                    && unchanged_tables(*old(self), *final(self)),
                Result::Err(DbError::Other(_)) => unchanged_tables(*old(self), *final(self)) || (!old(
                    self,
                ).votings().contains_key(voting.id@) && voting_written(
                    *old(self),
                    *final(self),
                    voting.id@,
                    enc_voting(voting@),
                )),
                Result::Err(_) => false,
            },
    {
        let t = match begin_txn(&self.db) {
            Ok(t) => t,
            Err(e) => {
                return Err(DbError::Other(e));
            },
        };
        let existing = match txn_voting_get(&t, voting.id.as_str()) {
            Ok(x) => x,
            Err(e) => {
                return Err(DbError::Other(e));
            },
        };
        if existing.is_some() {
            return Err(DbError::AlreadyExists);
        }
        let mut t = t;
        let text = encode_voting(&voting);
        match txn_voting_insert(&mut t, voting.id.as_str(), text.as_str()) {
            Ok(()) => (),
            Err(e) => {
                return Err(DbError::Other(e));
            },
        }
        match commit_txn(&mut self.db, t) {
            Ok(()) => Ok(()),
            Err(e) => Err(DbError::Other(e)),
        }
    }

    /// Read a voting by id.  A completed or deleted voting is returned like
    /// any other; callers inspect the flags themselves.  Fails `NotFound`
    /// if no voting is stored under the id.
    pub fn get_voting(&self, id: &str) -> (r: Result<Voting, DbError>)
        ensures
            match r {
                Result::Ok(v) => voting_at(self.votings(), id@) == Some(v@),
                Result::Err(DbError::NotFound) => !self.votings().contains_key(id@),
                Result::Err(DbError::Other(_)) => true,
                Result::Err(_) => false,
            },
    {
        let t = match begin_txn(&self.db) {
            Ok(t) => t,
            Err(e) => {
                return Err(DbError::Other(e));
            },
        };
        let stored = match txn_voting_get(&t, id) {
            Ok(x) => x,
            Err(e) => {
                return Err(DbError::Other(e));
            },
        };
        match stored {
            Some(text) => match decode_voting(text.as_str()) {
                Some(v) => Ok(v),
                None => Err(DbError::Other(String::from_str("stored voting is unreadable"))),
            },
            None => Err(DbError::NotFound),
        }
    }

    /// Mark a voting completed and return the updated entity.  Fails
    /// `NotFound` if the voting is absent or already deleted.
    pub fn complete_voting(&mut self, id: &str) -> (r: Result<Voting, DbError>)
        ensures
            match r {
                Result::Ok(v) => voting_at(old(self).votings(), id@) matches Some(w)
                    && !w.is_deleted && v@ == (VotingV { is_completed: true, ..w })
                    && voting_written(*old(self), *final(self), id@, enc_voting(v@))
                    && crate::entities::voting_wf(v@),
                Result::Err(DbError::NotFound) => (!old(self).votings().contains_key(id@)
                    || (voting_at(old(self).votings(), id@) matches Some(w) && w.is_deleted))
                    && unchanged_tables(*old(self), *final(self)),
                Result::Err(DbError::Other(_)) => unchanged_tables(*old(self), *final(self)) || (
                voting_at(old(self).votings(), id@) matches Some(w) && !w.is_deleted
                    && voting_written(
                    *old(self),
                    *final(self),
                    id@,
                    enc_voting((VotingV { is_completed: true, ..w })),
                )),
                Result::Err(_) => false,
            },
    {
        let t = match begin_txn(&self.db) {
            Ok(t) => t,
            Err(e) => {
                return Err(DbError::Other(e));
            },
        };
        let stored = match txn_voting_get(&t, id) {
            Ok(x) => x,
            Err(e) => {
                return Err(DbError::Other(e));
            },
        };
        let text = match stored {
            Some(text) => text,
            None => {
                return Err(DbError::NotFound);
            },
        };
        let found = match decode_voting(text.as_str()) {
            Some(v) => v,
            None => {
                return Err(DbError::Other(String::from_str("stored voting is unreadable")));
            },
        };
        if found.is_deleted {
            return Err(DbError::NotFound);
        }
        let updated = Voting { is_completed: true, ..found };
        let new_text = encode_voting(&updated);
        let mut t = t;
        match txn_voting_insert(&mut t, id, new_text.as_str()) {
            Ok(()) => (),
            Err(e) => {
                return Err(DbError::Other(e));
            },
        }
        match commit_txn(&mut self.db, t) {
            Ok(()) => Ok(updated),
            Err(e) => Err(DbError::Other(e)),
        }
    }

    /// Mark a voting deleted and return the updated entity.  Fails
    /// `NotFound` if the voting is absent or already deleted.
    pub fn delete_voting(&mut self, id: &str) -> (r: Result<Voting, DbError>)
        ensures
            match r {
                Result::Ok(v) => voting_at(old(self).votings(), id@) matches Some(w)
                    && !w.is_deleted && v@ == (VotingV { is_deleted: true, ..w })
                    && voting_written(*old(self), *final(self), id@, enc_voting(v@))
                    && crate::entities::voting_wf(v@),
                Result::Err(DbError::NotFound) => (!old(self).votings().contains_key(id@)
                    || (voting_at(old(self).votings(), id@) matches Some(w) && w.is_deleted))
                    && unchanged_tables(*old(self), *final(self)),
                Result::Err(DbError::Other(_)) => unchanged_tables(*old(self), *final(self)) || (
                voting_at(old(self).votings(), id@) matches Some(w) && !w.is_deleted
                    && voting_written(
                    *old(self),
                    *final(self),
                    id@,
                    enc_voting((VotingV { is_deleted: true, ..w })),
                )),
                Result::Err(_) => false,
            },
    {
        let t = match begin_txn(&self.db) {
            Ok(t) => t,
            Err(e) => {
                return Err(DbError::Other(e));
            },
        };
        let stored = match txn_voting_get(&t, id) {
            Ok(x) => x,
            Err(e) => {
                return Err(DbError::Other(e));
            },
        };
        let text = match stored {
            Some(text) => text,
            None => {
                return Err(DbError::NotFound);
            },
        };
        let found = match decode_voting(text.as_str()) {
            Some(v) => v,
            None => {
                return Err(DbError::Other(String::from_str("stored voting is unreadable")));
            },
        };
        if found.is_deleted {
            return Err(DbError::NotFound);
        }
        let updated = Voting { is_deleted: true, ..found };
        let new_text = encode_voting(&updated);
        let mut t = t;
        match txn_voting_insert(&mut t, id, new_text.as_str()) {
            Ok(()) => (),
            Err(e) => {
                return Err(DbError::Other(e));
            },
        }
        match commit_txn(&mut self.db, t) {
            Ok(()) => Ok(updated),
            Err(e) => Err(DbError::Other(e)),
        }
    }

    /// Set one rank in a stored ballot: slot `index` becomes `vote`.  Fails
    /// `NotFound` if no dialog is stored for the pair, `IndexOutOfRange` if
    /// the slot is beyond the stored ballot.
    pub fn vote_voting_dialog(
        &mut self,
        voting_id: &str,
        user_id: &str,
        vote: i32,
        index: usize,
    ) -> (r: Result<(), DbError>)
        ensures
            match r {
                Result::Ok(()) => dialog_at(
                    old(self).dialogs(),
                    composite_key(voting_id@, user_id@),
                ) matches Some(d) && index < d.ballot.len() && dialog_written(
                    *old(self),
                    *final(self),
                    composite_key(voting_id@, user_id@),
                    enc_dialog(
                        (DialogV { ballot: d.ballot.update(index as int, vote as int), ..d }),
                    ),
                ),
                Result::Err(DbError::NotFound) => !old(self).dialogs().contains_key(
                    composite_key(voting_id@, user_id@),
                ) && unchanged_tables(*old(self), *final(self)),
                Result::Err(DbError::IndexOutOfRange) => dialog_at(
                    old(self).dialogs(),
                    composite_key(voting_id@, user_id@),
                ) matches Some(d) && index >= d.ballot.len() && unchanged_tables(
                    *old(self),
                    *final(self),
                ),
                Result::Err(DbError::Other(_)) => unchanged_tables(*old(self), *final(self)) || (
                dialog_at(old(self).dialogs(), composite_key(voting_id@, user_id@)) matches Some(d)
                    && index < d.ballot.len() && dialog_written(
                    *old(self),
                    *final(self),
                    composite_key(voting_id@, user_id@),
                    enc_dialog(
                        (DialogV { ballot: d.ballot.update(index as int, vote as int), ..d }),
                    ),
                )),
                Result::Err(_) => false,
            },
    {
        let key = encode_key(voting_id, user_id);
        let t = match begin_txn(&self.db) {
            Ok(t) => t,
            Err(e) => {
                return Err(DbError::Other(e));
            },
        };
        let stored = match txn_dialog_get(&t, key.as_str()) {
            Ok(x) => x,
            Err(e) => {
                return Err(DbError::Other(e));
            },
        };
        let text = match stored {
            Some(text) => text,
            None => {
                return Err(DbError::NotFound);
            },
        };
        let mut dialog = match decode_dialog(text.as_str()) {
            Some(d) => d,
            None => {
                return Err(DbError::Other(String::from_str("stored dialog is unreadable")));
            },
        };
        if index >= dialog.ballot.len() {
            return Err(DbError::IndexOutOfRange);
        }
        dialog.ballot.set(index, vote);
        proof {
            let d0 = dialog_at(old(self).dialogs(), composite_key(voting_id@, user_id@)).unwrap();
            assert(dialog@.ballot =~= d0.ballot.update(index as int, vote as int));
            assert(dialog@ == (DialogV {
                ballot: d0.ballot.update(index as int, vote as int),
                ..d0
            }));
        }
        let new_text = encode_dialog(&dialog);
        let mut t = t;
        match txn_dialog_insert(&mut t, key.as_str(), new_text.as_str()) {
            Ok(()) => (),
            Err(e) => {
                return Err(DbError::Other(e));
            },
        }
        match commit_txn(&mut self.db, t) {
            Ok(()) => Ok(()),
            Err(e) => Err(DbError::Other(e)),
        }
    }

    /// Save a vote dialog for a (voting, user) pair.  With `overwrite`
    /// false, fails `AlreadyExists` if one is already stored for the pair;
    /// with `overwrite` true it replaces silently.
    pub fn save_voting_dialog(
        &mut self,
        voting_id: String,
        user_id: String,
        ballot: Vec<i32>,
        message_id: String,
        channel_id: String,
        overwrite: bool,
    ) -> (r: Result<(), DbError>)
        ensures
            match r {
                Result::Ok(()) => (overwrite || !old(self).dialogs().contains_key(
                    composite_key(voting_id@, user_id@),
                )) && dialog_written(
                    *old(self),
                    *final(self),
                    composite_key(voting_id@, user_id@),
                    enc_dialog(
                        (DialogV {
                            voting_id: voting_id@,
                            user_id: user_id@,
                            ballot: crate::codec::i32s(ballot@),
                            message_id: message_id@,
                            channel_id: channel_id@,
                        }),
                    ),
                ) && crate::entities::dialog_wf(
                    (DialogV {
                        voting_id: voting_id@,
                        user_id: user_id@,
                        ballot: crate::codec::i32s(ballot@),
                        message_id: message_id@,
                        channel_id: channel_id@,
                    }),
                ),
                Result::Err(DbError::AlreadyExists) => !overwrite && old(
                    self,
                ).dialogs().contains_key(composite_key(voting_id@, user_id@)) && unchanged_tables(
                    *old(self),
                    *final(self),
                ),
                Result::Err(DbError::Other(_)) => unchanged_tables(*old(self), *final(self)) || (
                (overwrite || !old(self).dialogs().contains_key(
                    composite_key(voting_id@, user_id@),
                )) && dialog_written(
                    *old(self),
                    *final(self),
                    composite_key(voting_id@, user_id@),
                    enc_dialog(
                        (DialogV {
                            voting_id: voting_id@,
                            user_id: user_id@,
                            ballot: crate::codec::i32s(ballot@),
                            message_id: message_id@,
                            channel_id: channel_id@,
                        }),
                    ),
                )),
                Result::Err(_) => false,
            },
    {
        let key = encode_key(voting_id.as_str(), user_id.as_str());
        let dialog = VoteDialog { voting_id, user_id, ballot, message_id, channel_id };
        let t = match begin_txn(&self.db) {
            Ok(t) => t,
            Err(e) => {
                return Err(DbError::Other(e));
            },
        };
        if !overwrite {
            let existing = match txn_dialog_get(&t, key.as_str()) {
                Ok(x) => x,
                Err(e) => {
                    return Err(DbError::Other(e));
                },
            };
            if existing.is_some() {
                return Err(DbError::AlreadyExists);
            }
        }
        let text = encode_dialog(&dialog);
        let mut t = t;
        match txn_dialog_insert(&mut t, key.as_str(), text.as_str()) {
            Ok(()) => (),
            Err(e) => {
                return Err(DbError::Other(e));
            },
        }
        match commit_txn(&mut self.db, t) {
            Ok(()) => Ok(()),
            Err(e) => Err(DbError::Other(e)),
        }
    }

    /// Read the vote dialog of a (voting, user) pair.  Fails `NotFound` if
    /// none is stored.
    pub fn get_voting_dialog(&self, voting_id: &str, user_id: &str) -> (r: Result<
        VoteDialog,
        DbError,
    >)
        ensures
            match r {
                Result::Ok(d) => dialog_at(self.dialogs(), composite_key(voting_id@, user_id@))
                    == Some(d@),
                Result::Err(DbError::NotFound) => !self.dialogs().contains_key(
                    composite_key(voting_id@, user_id@),
                ),
                Result::Err(DbError::Other(_)) => true,
                Result::Err(_) => false,
            },
    {
        let key = encode_key(voting_id, user_id);
        let t = match begin_txn(&self.db) {
            Ok(t) => t,
            Err(e) => {
                return Err(DbError::Other(e));
            },
        };
        let stored = match txn_dialog_get(&t, key.as_str()) {
            Ok(x) => x,
            Err(e) => {
                return Err(DbError::Other(e));
            },
        };
        match stored {
            Some(text) => match decode_dialog(text.as_str()) {
                Some(d) => Ok(d),
                None => Err(DbError::Other(String::from_str("stored dialog is unreadable"))),
            },
            None => Err(DbError::NotFound),
        }
    }

    /// Read every vote dialog stored for one voting: the scan starts at the
    /// voting's key prefix and each row is kept only if its stored voting
    /// id equals the query, so rows of a lexicographically adjacent voting
    /// are never returned.
    pub fn get_voting_dialogs(&self, voting_id: &str) -> (r: Result<Vec<VoteDialog>, DbError>)
        ensures
            match r {
                Result::Ok(ds) => exists|es: Seq<(Seq<char>, Seq<char>)>|
                    #[trigger] scan_result(self.dialogs(), scan_prefix(voting_id@), es)
                        && filter_dialogs(es, voting_id@) == Some(ds.deep_view()),
                Result::Err(DbError::Other(_)) => true,
                Result::Err(_) => false,
            },
    {
        let prefix = encode_scan_prefix(voting_id);
        let t = match begin_txn(&self.db) {
            Ok(t) => t,
            Err(e) => {
                return Err(DbError::Other(e));
            },
        };
        let entries = match txn_dialog_scan_from(&t, prefix.as_str()) {
            Ok(x) => x,
            Err(e) => {
                return Err(DbError::Other(e));
            },
        };
        let ghost es = entries.deep_view();
        let mut out: Vec<VoteDialog> = Vec::new();
        let mut k: usize = 0;
        proof {
            assert(es.skip(0) =~= es);
            assert(out.deep_view() =~= Seq::<DialogV>::empty());
            assert forall|rest: Seq<DialogV>| true implies Seq::<DialogV>::empty() + rest
                =~= rest by {}
        }
        while k < entries.len()
            invariant
                k <= entries@.len(),
                es == entries.deep_view(),
                scan_result(self.dialogs(), scan_prefix(voting_id@), es),
                filter_dialogs(es, voting_id@) == (match filter_dialogs(
                    es.skip(k as int),
                    voting_id@,
                ) {
                    Option::Some(rest) => Option::Some(out.deep_view() + rest),
                    Option::None => Option::None::<Seq<DialogV>>,
                }),
            decreases entries@.len() - k,
        {
            let text = &entries[k].1;
            proof {
                assert(es[k as int] == (entries@[k as int].0@, entries@[k as int].1@));
                assert(es.skip(k as int)[0] == es[k as int]);
                assert(es.skip(k as int).drop_first() =~= es.skip(k + 1));
            }
            let d = match decode_dialog(text.as_str()) {
                Some(d) => d,
                None => {
                    return Err(DbError::Other(String::from_str("stored dialog is unreadable")));
                },
            };
            let ghost out_before = out.deep_view();
            if str_eq(d.voting_id.as_str(), voting_id) {
                let ghost dv = d@;
                out.push(d);
                proof {
                    assert(out.deep_view() =~= out_before.push(dv));
                    assert forall|rest: Seq<DialogV>|
                        true implies out_before + (seq![dv] + rest) =~= out_before.push(dv)
                        + rest by {}
                }
            }
            k = k + 1;
        }
        proof {
            assert(es.skip(entries@.len() as int) =~= Seq::<(Seq<char>, Seq<char>)>::empty());
            assert(out.deep_view() + Seq::<DialogV>::empty() =~= out.deep_view());
            assert(scan_result(self.dialogs(), scan_prefix(voting_id@), es) && filter_dialogs(
                es,
                voting_id@,
            ) == Some(out.deep_view()));
        }
        Ok(out)
    }

    /// Read the payload behind one token.  Fails `NotFound` if the token is
    /// absent.
    pub fn get_custom_id(&self, id: &str) -> (r: Result<CustomID, DbError>)
        ensures
            match r {
                Result::Ok(c) => custom_at(self.custom_ids(), id@) == Some(c@),
                Result::Err(DbError::NotFound) => !self.custom_ids().contains_key(id@),
                Result::Err(DbError::Other(_)) => true,
                Result::Err(_) => false,
            },
    {
        let t = match begin_txn(&self.db) {
            Ok(t) => t,
            Err(e) => {
                return Err(DbError::Other(e));
            },
        };
        let stored = match txn_custom_get(&t, id) {
            Ok(x) => x,
            Err(e) => {
                return Err(DbError::Other(e));
            },
        };
        match stored {
            Some(text) => match decode_custom(text.as_str()) {
                Some(c) => Ok(c),
                None => Err(DbError::Other(String::from_str("stored custom id is unreadable"))),
            },
            None => Err(DbError::NotFound),
        }
    }

    /// Read every custom-id payload belonging to one voting, through the
    /// index: the scan stops at the first key outside the voting's prefix
    /// run, and a token the custom-id table no longer holds is skipped
    /// rather than failing the call.
    pub fn get_custom_ids(&self, voting_id: &str) -> (r: Result<Vec<CustomID>, DbError>)
        ensures
            match r {
                Result::Ok(cs) => exists|es: Seq<(Seq<char>, Seq<char>)>|
                    #[trigger] scan_result(self.custom_index(), scan_prefix(voting_id@), es)
                        && resolve_customs(self.custom_ids(), es, scan_prefix(voting_id@)) == Some(
                        cs.deep_view(),
                    ),
                Result::Err(DbError::Other(_)) => true,
                Result::Err(_) => false,
            },
    {
        let prefix = encode_scan_prefix(voting_id);
        let prefix_chars = crate::chars::string_to_chars(prefix.as_str());
        let t = match begin_txn(&self.db) {
            Ok(t) => t,
            Err(e) => {
                return Err(DbError::Other(e));
            },
        };
        let entries = match txn_index_scan_from(&t, prefix.as_str()) {
            Ok(x) => x,
            Err(e) => {
                return Err(DbError::Other(e));
            },
        };
        let ghost es = entries.deep_view();
        let ghost customs = self.custom_ids();
        let mut out: Vec<CustomID> = Vec::new();
        let mut k: usize = 0;
        proof {
            assert(es.skip(0) =~= es);
            assert(out.deep_view() =~= Seq::<CustomIDV>::empty());
            assert forall|rest: Seq<CustomIDV>| true implies Seq::<CustomIDV>::empty() + rest
                =~= rest by {}
        }
        while k < entries.len()
            invariant
                k <= entries@.len(),
                es == entries.deep_view(),
                prefix_chars@ == scan_prefix(voting_id@),
                customs == self.custom_ids(),
                crate::store::txn_custom(t) == customs,
                scan_result(self.custom_index(), scan_prefix(voting_id@), es),
                resolve_customs(customs, es, scan_prefix(voting_id@)) == (match resolve_customs(
                    customs,
                    es.skip(k as int),
                    scan_prefix(voting_id@),
                ) {
                    Option::Some(rest) => Option::Some(out.deep_view() + rest),
                    Option::None => Option::None::<Seq<CustomIDV>>,
                }),
            decreases entries@.len() - k,
        {
            proof {
                assert(es[k as int] == (entries@[k as int].0@, entries@[k as int].1@));
                assert(es.skip(k as int)[0] == es[k as int]);
                assert(es.skip(k as int).drop_first() =~= es.skip(k + 1));
            }
            let key_chars = crate::chars::string_to_chars(entries[k].0.as_str());
            if !crate::chars::starts_with_chars(&key_chars, &prefix_chars) {
                proof {
                    lemma_scan_tail_no_prefix(
                        self.custom_index(),
                        scan_prefix(voting_id@),
                        es,
                        k as int,
                    );
                    assert forall|j: int| 0 <= j < es.skip(k as int).len() implies !has_prefix(
                        (#[trigger] es.skip(k as int)[j]).0,
                        scan_prefix(voting_id@),
                    ) by {
                        assert(es.skip(k as int)[j] == es[k + j]);
                    }
                    lemma_resolve_no_prefix(customs, es.skip(k as int), scan_prefix(voting_id@));
                    assert(out.deep_view() + Seq::<CustomIDV>::empty() =~= out.deep_view());
                }
                return Ok(out);
            }
            let token = &entries[k].1;
            let resolved = match txn_custom_get(&t, token.as_str()) {
                Ok(x) => x,
                Err(e) => {
                    return Err(DbError::Other(e));
                },
            };
            match resolved {
                Some(text) => {
                    let c = match decode_custom(text.as_str()) {
                        Some(c) => c,
                        None => {
                            return Err(
                                DbError::Other(
                                    String::from_str("stored custom id is unreadable"),
                                ),
                            );
                        },
                    };
                    let ghost out_before = out.deep_view();
                    let ghost cv = c@;
                    out.push(c);
                    proof {
                        assert(out.deep_view() =~= out_before.push(cv));
                        assert forall|rest: Seq<CustomIDV>|
                            true implies out_before + (seq![cv] + rest) =~= out_before.push(cv)
                            + rest by {}
                    }
                },
                None => {
                },
            }
            k = k + 1;
        }
        proof {
            assert(es.skip(entries@.len() as int) =~= Seq::<(Seq<char>, Seq<char>)>::empty());
            assert(out.deep_view() + Seq::<CustomIDV>::empty() =~= out.deep_view());
            assert(scan_result(self.custom_index(), scan_prefix(voting_id@), es)
                && resolve_customs(self.custom_ids(), es, scan_prefix(voting_id@)) == Some(
                out.deep_view(),
            ));
        }
        Ok(out)
    }

    /// Remove the vote dialog of a (voting, user) pair.  Removing an absent
    /// dialog succeeds and changes nothing: the operation is idempotent.
    pub fn delete_voting_dialog(&mut self, voting_id: &str, user_id: &str) -> (r: Result<
        (),
        DbError,
    >)
        ensures
            match r {
                Result::Ok(()) => dialog_removed(
                    *old(self),
                    *final(self),
                    composite_key(voting_id@, user_id@),
                ),
                Result::Err(DbError::Other(_)) => unchanged_tables(*old(self), *final(self))
                    || dialog_removed(*old(self), *final(self), composite_key(voting_id@, user_id@)),
                Result::Err(_) => false,
            },
    {
        let key = encode_key(voting_id, user_id);
        let t = match begin_txn(&self.db) {
            Ok(t) => t,
            Err(e) => {
                return Err(DbError::Other(e));
            },
        };
        let mut t = t;
        match txn_dialog_remove(&mut t, key.as_str()) {
            Ok(()) => (),
            Err(e) => {
                return Err(DbError::Other(e));
            },
        }
        match commit_txn(&mut self.db, t) {
            Ok(()) => Ok(()),
            Err(e) => Err(DbError::Other(e)),
        }
    }

    /// Save a batch of custom ids: each pair's payload goes into the
    /// custom-id table under its token, and the token into the index under
    /// the owning voting's composite key.  All writes for all pairs commit
    /// together or not at all.
    pub fn bulk_save_custom_ids(&mut self, custom_ids: Vec<(String, CustomID)>) -> (r: Result<
        (),
        DbError,
    >)
        ensures
            match r {
                Result::Ok(()) => final(self).custom_ids() == bulk_customs(
                    old(self).custom_ids(),
                    custom_ids.deep_view(),
                ) && final(self).custom_index() == bulk_index(
                    old(self).custom_index(),
                    custom_ids.deep_view(),
                ) && final(self).votings() == old(self).votings() && final(self).dialogs() == old(
                    self,
                ).dialogs(),
                Result::Err(DbError::Other(_)) => unchanged_tables(*old(self), *final(self)) || (
                final(self).custom_ids() == bulk_customs(
                    old(self).custom_ids(),
                    custom_ids.deep_view(),
                ) && final(self).custom_index() == bulk_index(
                    old(self).custom_index(),
                    custom_ids.deep_view(),
                ) && final(self).votings() == old(self).votings() && final(self).dialogs() == old(
                    self,
                ).dialogs()),
                Result::Err(_) => false,
            },
    {
        let ghost pairs = custom_ids.deep_view();
        let ghost customs0 = self.custom_ids();
        let ghost index0 = self.custom_index();
        let t = match begin_txn(&self.db) {
            Ok(t) => t,
            Err(e) => {
                return Err(DbError::Other(e));
            },
        };
        let mut t = t;
        let mut k: usize = 0;
        proof {
            assert(pairs.skip(0) =~= pairs);
        }
        while k < custom_ids.len()
            invariant
                k <= custom_ids@.len(),
                pairs == custom_ids.deep_view(),
                customs0 == old(self).custom_ids(),
                index0 == old(self).custom_index(),
                self.db == old(self).db,
                crate::store::txn_voting(t) == old(self).votings(),
                crate::store::txn_dialog(t) == old(self).dialogs(),
                bulk_customs(customs0, pairs) == bulk_customs(
                    crate::store::txn_custom(t),
                    pairs.skip(k as int),
                ),
                bulk_index(index0, pairs) == bulk_index(
                    crate::store::txn_index(t),
                    pairs.skip(k as int),
                ),
            decreases custom_ids@.len() - k,
        {
            proof {
                assert(pairs[k as int] == (custom_ids@[k as int].0@, custom_ids@[k as int].1@));
                assert(pairs.skip(k as int)[0] == pairs[k as int]);
                assert(pairs.skip(k as int).drop_first() =~= pairs.skip(k + 1));
            }
            let token = &custom_ids[k].0;
            let payload = &custom_ids[k].1;
            let text = encode_custom(payload);
            match txn_custom_insert(&mut t, token.as_str(), text.as_str()) {
                Ok(()) => (),
                Err(e) => {
                    return Err(DbError::Other(e));
                },
            }
            let index_key = encode_key(payload.voting_id.as_str(), token.as_str());
            match txn_index_insert(&mut t, index_key.as_str(), token.as_str()) {
                Ok(()) => (),
                Err(e) => {
                    return Err(DbError::Other(e));
                },
            }
            k = k + 1;
        }
        proof {
            assert(pairs.skip(custom_ids@.len() as int) =~= Seq::<(Seq<char>, CustomIDV)>::empty());
        }
        match commit_txn(&mut self.db, t) {
            Ok(()) => Ok(()),
            Err(e) => Err(DbError::Other(e)),
        }
    }

    /// Remove every custom id belonging to one voting, from both tables in
    /// one transaction: first the voting's prefix run of the index is
    /// collected, then every collected token leaves the custom-id table and
    /// every collected key leaves the index, so the two tables never
    /// diverge.
    pub fn delete_custom_ids(&mut self, voting_id: &str) -> (r: Result<(), DbError>)
        ensures
            match r {
                Result::Ok(()) => exists|es: Seq<(Seq<char>, Seq<char>)>|
                    #[trigger] scan_result(old(self).custom_index(), scan_prefix(voting_id@), es)
                        && final(self).custom_index() == old(self).custom_index().remove_keys(
                        entry_keys(prefix_matched(es, scan_prefix(voting_id@))),
                    ) && final(self).custom_ids() == old(self).custom_ids().remove_keys(
                        entry_tokens(prefix_matched(es, scan_prefix(voting_id@))),
                    ) && final(self).votings() == old(self).votings() && final(self).dialogs()
                        == old(self).dialogs(),
                Result::Err(DbError::Other(_)) => final(self).votings() == old(self).votings()
                    && final(self).dialogs() == old(self).dialogs(),
                Result::Err(_) => false,
            },
    {
        let prefix = encode_scan_prefix(voting_id);
        let prefix_chars = crate::chars::string_to_chars(prefix.as_str());
        let ghost customs0 = self.custom_ids();
        let ghost index0 = self.custom_index();
        let t = match begin_txn(&self.db) {
            Ok(t) => t,
            Err(e) => {
                return Err(DbError::Other(e));
            },
        };
        let entries = match txn_index_scan_from(&t, prefix.as_str()) {
            Ok(x) => x,
            Err(e) => {
                return Err(DbError::Other(e));
            },
        };
        let ghost es = entries.deep_view();
        let mut to_remove: Vec<(String, String)> = Vec::new();
        let mut k: usize = 0;
        proof {
            assert(es.skip(0) =~= es);
            assert(to_remove.deep_view() =~= Seq::<(Seq<char>, Seq<char>)>::empty());
            assert forall|rest: Seq<(Seq<char>, Seq<char>)>|
                true implies Seq::<(Seq<char>, Seq<char>)>::empty() + rest =~= rest by {}
        }
        let mut stopped = false;
        while !stopped && k < entries.len()
            invariant
                k <= entries@.len(),
                es == entries.deep_view(),
                prefix_chars@ == scan_prefix(voting_id@),
                scan_result(index0, scan_prefix(voting_id@), es),
                !stopped ==> prefix_matched(es, scan_prefix(voting_id@)) == (to_remove.deep_view()
                    + prefix_matched(es.skip(k as int), scan_prefix(voting_id@))),
                stopped ==> prefix_matched(es, scan_prefix(voting_id@)) == to_remove.deep_view(),
            decreases entries@.len() - k, (if stopped { 0int } else { 1int }),
        {
            proof {
                assert(es[k as int] == (entries@[k as int].0@, entries@[k as int].1@));
                assert(es.skip(k as int)[0] == es[k as int]);
                assert(es.skip(k as int).drop_first() =~= es.skip(k + 1));
            }
            let key_chars = crate::chars::string_to_chars(entries[k].0.as_str());
            if !crate::chars::starts_with_chars(&key_chars, &prefix_chars) {
                proof {
                    lemma_scan_tail_no_prefix(index0, scan_prefix(voting_id@), es, k as int);
                    assert forall|j: int| 0 <= j < es.skip(k as int).len() implies !has_prefix(
                        (#[trigger] es.skip(k as int)[j]).0,
                        scan_prefix(voting_id@),
                    ) by {
                        assert(es.skip(k as int)[j] == es[k + j]);
                    }
                    lemma_prefix_matched_none(es.skip(k as int), scan_prefix(voting_id@));
                    assert(to_remove.deep_view() + Seq::<(Seq<char>, Seq<char>)>::empty()
                        =~= to_remove.deep_view());
                }
                stopped = true;
            } else {
                let ghost before = to_remove.deep_view();
                to_remove.push((entries[k].0.clone(), entries[k].1.clone()));
                proof {
                    assert(to_remove.deep_view() =~= before.push(es[k as int]));
                    assert forall|rest: Seq<(Seq<char>, Seq<char>)>|
                        true implies before + (seq![es[k as int]] + rest) =~= before.push(
                        es[k as int],
                    ) + rest by {}
                }
                k = k + 1;
            }
        }
        proof {
            if !stopped {
                assert(es.skip(k as int) =~= Seq::<(Seq<char>, Seq<char>)>::empty());
                assert(prefix_matched(es.skip(k as int), scan_prefix(voting_id@)) == Seq::<
                    (Seq<char>, Seq<char>),
                >::empty());
                assert(to_remove.deep_view() + Seq::<(Seq<char>, Seq<char>)>::empty()
                    =~= to_remove.deep_view());
            }
            assert(prefix_matched(es, scan_prefix(voting_id@)) == to_remove.deep_view());
        }
        let ghost matched = to_remove.deep_view();
        let mut t = t;
        let mut j: usize = 0;
        proof {
            assert(entry_tokens(matched.take(0)) =~= Set::<Seq<char>>::empty());
            assert(entry_keys(matched.take(0)) =~= Set::<Seq<char>>::empty());
            assert(customs0.remove_keys(Set::<Seq<char>>::empty()) =~= customs0);
            assert(index0.remove_keys(Set::<Seq<char>>::empty()) =~= index0);
        }
        while j < to_remove.len()
            invariant
                j <= to_remove@.len(),
                matched == to_remove.deep_view(),
                customs0 == old(self).custom_ids(),
                index0 == old(self).custom_index(),
                self.db == old(self).db,
                crate::store::txn_voting(t) == old(self).votings(),
                crate::store::txn_dialog(t) == old(self).dialogs(),
                crate::store::txn_custom(t) == customs0.remove_keys(
                    entry_tokens(matched.take(j as int)),
                ),
                crate::store::txn_index(t) == index0.remove_keys(
                    entry_keys(matched.take(j as int)),
                ),
            decreases to_remove@.len() - j,
        {
            proof {
                assert(matched[j as int] == (to_remove@[j as int].0@, to_remove@[j as int].1@));
            }
            match txn_custom_remove(&mut t, to_remove[j].1.as_str()) {
                Ok(()) => (),
                Err(e) => {
                    return Err(DbError::Other(e));
                },
            }
            match txn_index_remove(&mut t, to_remove[j].0.as_str()) {
                Ok(()) => (),
                Err(e) => {
                    return Err(DbError::Other(e));
                },
            }
            proof {
                let tj = matched[j as int].1;
                let kj = matched[j as int].0;
                assert(matched.take(j + 1) =~= matched.take(j as int).push(matched[j as int]));
                assert(matched.take(j + 1).map_values(|e: (Seq<char>, Seq<char>)| e.1)
                    =~= matched.take(j as int).map_values(|e: (Seq<char>, Seq<char>)| e.1).push(
                    tj,
                ));
                assert(matched.take(j + 1).map_values(|e: (Seq<char>, Seq<char>)| e.0)
                    =~= matched.take(j as int).map_values(|e: (Seq<char>, Seq<char>)| e.0).push(
                    kj,
                ));
                matched.take(j as int).map_values(
                    |e: (Seq<char>, Seq<char>)| e.1,
                ).lemma_push_to_set_commute(tj);
                matched.take(j as int).map_values(
                    |e: (Seq<char>, Seq<char>)| e.0,
                ).lemma_push_to_set_commute(kj);
                assert(entry_tokens(matched.take(j + 1)) =~= entry_tokens(
                    matched.take(j as int),
                ).insert(tj));
                assert(entry_keys(matched.take(j + 1)) =~= entry_keys(
                    matched.take(j as int),
                ).insert(kj));
                assert(customs0.remove_keys(entry_tokens(matched.take(j as int))).remove(tj)
                    =~= customs0.remove_keys(entry_tokens(matched.take(j + 1))));
                assert(index0.remove_keys(entry_keys(matched.take(j as int))).remove(kj)
                    =~= index0.remove_keys(entry_keys(matched.take(j + 1))));
            }
            j = j + 1;
        }
        proof {
            assert(matched.take(to_remove@.len() as int) =~= matched);
        }
        match commit_txn(&mut self.db, t) {
            Ok(()) => Ok(()),
            Err(e) => Err(DbError::Other(e)),
        }
    }
}

} // verus!
