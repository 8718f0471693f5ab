//! The stored entities: a voting, one user's vote dialog, and the custom-id
//! payload behind an interactive control.  Each entity has a mathematical
//! view, an encoding to the text stored in its table, and an exact decoder;
//! decoding an encoded entity gives back the original value.

use crate::codec::{
    enc_bool, enc_i32_list, enc_opt_num, enc_opt_str, enc_str, enc_str_list, i32s,
    lemma_parse_bool_of_enc, lemma_parse_i32_list_of_enc, lemma_parse_opt_num_of_enc,
    lemma_parse_opt_str_of_enc, lemma_parse_str_list_of_enc, lemma_parse_str_of_enc,
    lemma_placed_concat, parse_bool, parse_bool_exec, parse_i32_list, parse_i32_list_exec,
    parse_opt_num, parse_opt_num_exec, parse_opt_str, parse_opt_str_exec, parse_str,
    parse_str_exec, parse_str_list, parse_str_list_exec, placed, push_bool_field,
    push_i32_list_field, push_opt_num_field, push_opt_str_field, push_str_field,
    push_str_list_field, usize_max,
};
use vstd::prelude::*;

verus! {

/// What an interactive control does when clicked.
#[derive(Debug, PartialEq, Eq, Clone)]
pub enum Action {
    VoteFromChannel,
    VoteFromDM,
    VoteSelect,
    VoteNext,
    VotePrevious,
    Complete,
    Delete,
}

/// A poll: its identity, choices, lifecycle flags, and the messages that
/// display it.
#[derive(Debug, PartialEq, Eq, Clone)]
pub struct Voting {
    pub id: String,
    pub name: String,
    pub choices: Vec<String>,
    pub is_completed: bool,
    pub is_deleted: bool,
    pub message_id: String,
    pub channel_id: String,
    pub creator_message_id: String,
    pub creator_dm_channel_id: String,
}

/// The mathematical view of a voting.
pub ghost struct VotingV {
    pub id: Seq<char>,
    pub name: Seq<char>,
    pub choices: Seq<Seq<char>>,
    pub is_completed: bool,
    pub is_deleted: bool,
    pub message_id: Seq<char>,
    pub channel_id: Seq<char>,
    pub creator_message_id: Seq<char>,
    pub creator_dm_channel_id: Seq<char>,
}

impl View for Voting {
    type V = VotingV;

    open spec fn view(&self) -> VotingV {
        VotingV {
            id: self.id@,
            name: self.name@,
            choices: self.choices.deep_view(),
            is_completed: self.is_completed,
            is_deleted: self.is_deleted,
            message_id: self.message_id@,
            channel_id: self.channel_id@,
            creator_message_id: self.creator_message_id@,
            creator_dm_channel_id: self.creator_dm_channel_id@,
        }
    }
}

/// One user's in-progress ranked ballot for one voting.
#[derive(Debug, PartialEq, Eq, Clone)]
pub struct VoteDialog {
    pub voting_id: String,
    pub user_id: String,
    pub ballot: Vec<i32>,
    pub message_id: String,
    pub channel_id: String,
}

/// The mathematical view of a vote dialog.
pub ghost struct DialogV {
    pub voting_id: Seq<char>,
    pub user_id: Seq<char>,
    pub ballot: Seq<int>,
    pub message_id: Seq<char>,
    pub channel_id: Seq<char>,
}

impl View for VoteDialog {
    type V = DialogV;

    open spec fn view(&self) -> DialogV {
        DialogV {
            voting_id: self.voting_id@,
            user_id: self.user_id@,
            ballot: i32s(self.ballot@),
            message_id: self.message_id@,
            channel_id: self.channel_id@,
        }
    }
}

/// The payload behind an opaque interaction token.
#[derive(Debug, PartialEq, Eq, Clone)]
pub struct CustomID {
    pub action: Action,
    pub voting_id: String,
    pub user_id: Option<String>,
    pub page: Option<usize>,
    pub index: Option<usize>,
}

/// The mathematical view of a custom-id payload.
pub ghost struct CustomIDV {
    pub action: Action,
    pub voting_id: Seq<char>,
    pub user_id: Option<Seq<char>>,
    pub page: Option<nat>,
    pub index: Option<nat>,
}

impl View for CustomID {
    type V = CustomIDV;

    open spec fn view(&self) -> CustomIDV {
        CustomIDV {
            action: self.action,
            voting_id: self.voting_id@,
            user_id: match self.user_id {
                Option::Some(u) => Option::Some(u@),
                Option::None => Option::None,
            },
            page: match self.page {
                Option::Some(p) => Option::Some(p as nat),
                Option::None => Option::None,
            },
            index: match self.index {
                Option::Some(x) => Option::Some(x as nat),
                Option::None => Option::None,
            },
        }
    }
}

impl DeepView for Voting {
    type V = VotingV;

    open spec fn deep_view(&self) -> VotingV {
        self.view()
    }
}

impl DeepView for VoteDialog {
    type V = DialogV;

    open spec fn deep_view(&self) -> DialogV {
        self.view()
    }
}

impl DeepView for CustomID {
    type V = CustomIDV;

    open spec fn deep_view(&self) -> CustomIDV {
        self.view()
    }
}

// ---------------------------------------------------------------------------
// Well-formedness: the bounds every view of a machine-held entity obeys.
// ---------------------------------------------------------------------------

pub open spec fn voting_wf(v: VotingV) -> bool {
    &&& v.id.len() <= usize_max()
    &&& v.name.len() <= usize_max()
    &&& v.choices.len() <= usize_max()
    &&& forall|k: int| 0 <= k < v.choices.len() ==> (#[trigger] v.choices[k]).len() <= usize_max()
    &&& v.message_id.len() <= usize_max()
    &&& v.channel_id.len() <= usize_max()
    &&& v.creator_message_id.len() <= usize_max()
    &&& v.creator_dm_channel_id.len() <= usize_max()
}

pub open spec fn dialog_wf(d: DialogV) -> bool {
    &&& d.voting_id.len() <= usize_max()
    &&& d.user_id.len() <= usize_max()
    &&& d.ballot.len() <= usize_max()
    &&& forall|k: int|
        0 <= k < d.ballot.len() ==> i32::MIN as int <= #[trigger] d.ballot[k] <= i32::MAX as int
    &&& d.message_id.len() <= usize_max()
    &&& d.channel_id.len() <= usize_max()
}

pub open spec fn custom_wf(c: CustomIDV) -> bool {
    &&& c.voting_id.len() <= usize_max()
    &&& (c.user_id matches Option::Some(u) ==> u.len() <= usize_max())
    &&& (c.page matches Option::Some(p) ==> p <= usize_max())
    &&& (c.index matches Option::Some(x) ==> x <= usize_max())
}

// ---------------------------------------------------------------------------
// The action tag.
// ---------------------------------------------------------------------------

pub open spec fn action_char(a: Action) -> char {
    match a {
        Action::VoteFromChannel => 'c',
        Action::VoteFromDM => 'd',
        Action::VoteSelect => 's',
        Action::VoteNext => 'n',
        Action::VotePrevious => 'p',
        Action::Complete => 'C',
        Action::Delete => 'D',
    }
}

pub open spec fn enc_action(a: Action) -> Seq<char> {
    seq![action_char(a)]
}

pub open spec fn parse_action(s: Seq<char>, i: int) -> Option<(Action, int)> {
    if 0 <= i < s.len() {
        if s[i] == 'c' {
            Some((Action::VoteFromChannel, i + 1))
        } else if s[i] == 'd' {
            Some((Action::VoteFromDM, i + 1))
        } else if s[i] == 's' {
            Some((Action::VoteSelect, i + 1))
        } else if s[i] == 'n' {
            Some((Action::VoteNext, i + 1))
        } else if s[i] == 'p' {
            Some((Action::VotePrevious, i + 1))
        } else if s[i] == 'C' {
            Some((Action::Complete, i + 1))
        } else if s[i] == 'D' {
            Some((Action::Delete, i + 1))
        } else {
            None
        }
    } else {
        None
    }
}

pub proof fn lemma_parse_action_of_enc(s: Seq<char>, i: int, a: Action)
    requires
        placed(s, i, enc_action(a)),
    ensures
        parse_action(s, i) == Some((a, i + 1)),
{
    assert(s[i] == action_char(a)) by {
        assert(s.subrange(i, i + 1)[0] == s[i]);
    }
}

fn push_action(out: &mut Vec<char>, a: &Action)
    ensures
        final(out)@ == old(out)@ + enc_action(*a),
{
    let c = match a {
        Action::VoteFromChannel => 'c',
        Action::VoteFromDM => 'd',
        Action::VoteSelect => 's',
        Action::VoteNext => 'n',
        Action::VotePrevious => 'p',
        Action::Complete => 'C',
        Action::Delete => 'D',
    };
    out.push(c);
    proof {
        assert(final(out)@ =~= old(out)@ + enc_action(*a));
    }
}

fn parse_action_exec(cs: &Vec<char>, i: usize) -> (r: Option<(Action, usize)>)
    requires
        i <= cs@.len(),
    ensures
        match r {
            Option::Some((a, j)) => parse_action(cs@, i as int) == Some((a, j as int)) && i < j
                <= cs@.len(),
            Option::None => parse_action(cs@, i as int) is None,
        },
{
    if i == cs.len() {
        return None;
    }
    let c = cs[i];
    if c == 'c' {
        Some((Action::VoteFromChannel, i + 1))
    } else if c == 'd' {
        Some((Action::VoteFromDM, i + 1))
    } else if c == 's' {
        Some((Action::VoteSelect, i + 1))
    } else if c == 'n' {
        Some((Action::VoteNext, i + 1))
    } else if c == 'p' {
        Some((Action::VotePrevious, i + 1))
    } else if c == 'C' {
        Some((Action::Complete, i + 1))
    } else if c == 'D' {
        Some((Action::Delete, i + 1))
    } else {
        None
    }
}

// ---------------------------------------------------------------------------
// Voting codec.
// ---------------------------------------------------------------------------

/// The stored text of a voting.
pub open spec fn enc_voting(v: VotingV) -> Seq<char> {
    enc_str(v.id) + enc_str(v.name) + enc_str_list(v.choices) + enc_bool(v.is_completed)
        + enc_bool(v.is_deleted) + enc_str(v.message_id) + enc_str(v.channel_id) + enc_str(
        v.creator_message_id,
    ) + enc_str(v.creator_dm_channel_id)
}

pub open spec fn parse_voting(s: Seq<char>, i: int) -> Option<(VotingV, int)> {
    match parse_str(s, i) {
        Option::Some((id, i1)) => match parse_str(s, i1) {
            Option::Some((name, i2)) => match parse_str_list(s, i2) {
                Option::Some((choices, i3)) => match parse_bool(s, i3) {
                    Option::Some((is_completed, i4)) => match parse_bool(s, i4) {
                        Option::Some((is_deleted, i5)) => match parse_str(s, i5) {
                            Option::Some((message_id, i6)) => match parse_str(s, i6) {
                                Option::Some((channel_id, i7)) => match parse_str(s, i7) {
                                    Option::Some((creator_message_id, i8)) => match parse_str(
                                        s,
                                        i8,
                                    ) {
                                        Option::Some((creator_dm_channel_id, i9)) => Some(
                                            (
                                                VotingV {
                                                    id,
                                                    name,
                                                    choices,
                                                    is_completed,
                                                    is_deleted,
                                                    message_id,
                                                    channel_id,
                                                    creator_message_id,
                                                    creator_dm_channel_id,
                                                },
                                                i9,
                                            ),
                                        ),
                                        Option::None => None,
                                    },
                                    Option::None => None,
                                },
                                Option::None => None,
                            },
                            Option::None => None,
                        },
                        Option::None => None,
                    },
                    Option::None => None,
                },
                Option::None => None,
            },
            Option::None => None,
        },
        Option::None => None,
    }
}

/// What a stored voting value means: the whole text must be one encoded
/// voting.
pub open spec fn dec_voting(s: Seq<char>) -> Option<VotingV> {
    match parse_voting(s, 0) {
        Option::Some((v, j)) => if j == s.len() {
            Some(v)
        } else {
            None
        },
        Option::None => None,
    }
}

/// The stored text of a voting, built.
pub fn encode_voting(v: &Voting) -> (r: String)
    ensures
        r@ == enc_voting(v@),
        voting_wf(v@),
{
    let mut out: Vec<char> = Vec::new();
    push_str_field(&mut out, v.id.as_str());
    push_str_field(&mut out, v.name.as_str());
    push_str_list_field(&mut out, &v.choices);
    push_bool_field(&mut out, v.is_completed);
    push_bool_field(&mut out, v.is_deleted);
    push_str_field(&mut out, v.message_id.as_str());
    push_str_field(&mut out, v.channel_id.as_str());
    push_str_field(&mut out, v.creator_message_id.as_str());
    push_str_field(&mut out, v.creator_dm_channel_id.as_str());
    proof {
        assert(out@ =~= enc_voting(v@));
    }
    crate::chars::chars_to_string(&out)
}

/// A stored voting value, read back; nothing if the text is not one encoded
/// voting.
pub fn decode_voting(s: &str) -> (r: Option<Voting>)
    ensures
        match r {
            Option::Some(v) => dec_voting(s@) == Some(v@),
            Option::None => dec_voting(s@) is None,
        },
{
    let cs = crate::chars::string_to_chars(s);
    let (id, i1) = match parse_str_exec(&cs, 0) {
        Option::Some(x) => x,
        Option::None => {
            return None;
        },
    };
    let (name, i2) = match parse_str_exec(&cs, i1) {
        Option::Some(x) => x,
        Option::None => {
            return None;
        },
    };
    let (choices, i3) = match parse_str_list_exec(&cs, i2) {
        Option::Some(x) => x,
        Option::None => {
            return None;
        },
    };
    let (is_completed, i4) = match parse_bool_exec(&cs, i3) {
        Option::Some(x) => x,
        Option::None => {
            return None;
        },
    };
    let (is_deleted, i5) = match parse_bool_exec(&cs, i4) {
        Option::Some(x) => x,
        Option::None => {
            return None;
        },
    };
    let (message_id, i6) = match parse_str_exec(&cs, i5) {
        Option::Some(x) => x,
        Option::None => {
            return None;
        },
    };
    let (channel_id, i7) = match parse_str_exec(&cs, i6) {
        Option::Some(x) => x,
        Option::None => {
            return None;
        },
    };
    let (creator_message_id, i8) = match parse_str_exec(&cs, i7) {
        Option::Some(x) => x,
        Option::None => {
            return None;
        },
    };
    let (creator_dm_channel_id, i9) = match parse_str_exec(&cs, i8) {
        Option::Some(x) => x,
        Option::None => {
            return None;
        },
    };
    if i9 != cs.len() {
        return None;
    }
    Some(
        Voting {
            id: crate::chars::chars_to_string(&id),
            name: crate::chars::chars_to_string(&name),
            choices,
            is_completed,
            is_deleted,
            message_id: crate::chars::chars_to_string(&message_id),
            channel_id: crate::chars::chars_to_string(&channel_id),
            creator_message_id: crate::chars::chars_to_string(&creator_message_id),
            creator_dm_channel_id: crate::chars::chars_to_string(&creator_dm_channel_id),
        },
    )
}

/// An encoded voting, placed anywhere, parses back to itself.
pub proof fn lemma_parse_voting_of_enc(s: Seq<char>, i: int, v: VotingV)
    requires
        placed(s, i, enc_voting(v)),
        voting_wf(v),
    ensures
        parse_voting(s, i) == Some((v, i + enc_voting(v).len() as int)),
{
    let f1 = enc_str(v.id);
    let f2 = enc_str(v.name);
    let f3 = enc_str_list(v.choices);
    let f4 = enc_bool(v.is_completed);
    let f5 = enc_bool(v.is_deleted);
    let f6 = enc_str(v.message_id);
    let f7 = enc_str(v.channel_id);
    let f8 = enc_str(v.creator_message_id);
    let f9 = enc_str(v.creator_dm_channel_id);
    lemma_placed_concat(s, i, f1 + f2 + f3 + f4 + f5 + f6 + f7 + f8, f9);
    lemma_placed_concat(s, i, f1 + f2 + f3 + f4 + f5 + f6 + f7, f8);
    lemma_placed_concat(s, i, f1 + f2 + f3 + f4 + f5 + f6, f7);
    lemma_placed_concat(s, i, f1 + f2 + f3 + f4 + f5, f6);
    lemma_placed_concat(s, i, f1 + f2 + f3 + f4, f5);
    lemma_placed_concat(s, i, f1 + f2 + f3, f4);
    lemma_placed_concat(s, i, f1 + f2, f3);
    lemma_placed_concat(s, i, f1, f2);
    lemma_parse_str_of_enc(s, i, v.id);
    lemma_parse_str_of_enc(s, i + f1.len(), v.name);
    lemma_parse_str_list_of_enc(s, i + f1.len() + f2.len(), v.choices);
    lemma_parse_bool_of_enc(s, i + f1.len() + f2.len() + f3.len(), v.is_completed);
    lemma_parse_bool_of_enc(s, i + f1.len() + f2.len() + f3.len() + f4.len(), v.is_deleted);
    lemma_parse_str_of_enc(
        s,
        i + f1.len() + f2.len() + f3.len() + f4.len() + f5.len(),
        v.message_id,
    );
    lemma_parse_str_of_enc(
        s,
        i + f1.len() + f2.len() + f3.len() + f4.len() + f5.len() + f6.len(),
        v.channel_id,
    );
    lemma_parse_str_of_enc(
        s,
        i + f1.len() + f2.len() + f3.len() + f4.len() + f5.len() + f6.len() + f7.len(),
        v.creator_message_id,
    );
    lemma_parse_str_of_enc(
        s,
        i + f1.len() + f2.len() + f3.len() + f4.len() + f5.len() + f6.len() + f7.len() + f8.len(),
        v.creator_dm_channel_id,
    );
}

/// Reading back an encoded voting yields the original.
pub proof fn lemma_voting_round_trip(v: VotingV)
    requires
        voting_wf(v),
    ensures
        dec_voting(enc_voting(v)) == Some(v),
{
    let s = enc_voting(v);
    assert(placed(s, 0, s)) by {
        assert(s.subrange(0, s.len() as int) =~= s);
    }
    lemma_parse_voting_of_enc(s, 0, v);
}

// ---------------------------------------------------------------------------
// Vote-dialog codec.
// ---------------------------------------------------------------------------

/// The stored text of a vote dialog.
pub open spec fn enc_dialog(d: DialogV) -> Seq<char> {
    enc_str(d.voting_id) + enc_str(d.user_id) + enc_i32_list(d.ballot) + enc_str(d.message_id)
        + enc_str(d.channel_id)
}

pub open spec fn parse_dialog(s: Seq<char>, i: int) -> Option<(DialogV, int)> {
    match parse_str(s, i) {
        Option::Some((voting_id, i1)) => match parse_str(s, i1) {
            Option::Some((user_id, i2)) => match parse_i32_list(s, i2) {
                Option::Some((ballot, i3)) => match parse_str(s, i3) {
                    Option::Some((message_id, i4)) => match parse_str(s, i4) {
                        Option::Some((channel_id, i5)) => Some(
                            (DialogV { voting_id, user_id, ballot, message_id, channel_id }, i5),
                        ),
                        Option::None => None,
                    },
                    Option::None => None,
                },
                Option::None => None,
            },
            Option::None => None,
        },
        Option::None => None,
    }
}

/// What a stored vote-dialog value means.
pub open spec fn dec_dialog(s: Seq<char>) -> Option<DialogV> {
    match parse_dialog(s, 0) {
        Option::Some((d, j)) => if j == s.len() {
            Some(d)
        } else {
            None
        },
        Option::None => None,
    }
}

/// The stored text of a vote dialog, built.
pub fn encode_dialog(d: &VoteDialog) -> (r: String)
    ensures
        r@ == enc_dialog(d@),
        dialog_wf(d@),
{
    let mut out: Vec<char> = Vec::new();
    push_str_field(&mut out, d.voting_id.as_str());
    push_str_field(&mut out, d.user_id.as_str());
    push_i32_list_field(&mut out, &d.ballot);
    push_str_field(&mut out, d.message_id.as_str());
    push_str_field(&mut out, d.channel_id.as_str());
    proof {
        assert(out@ =~= enc_dialog(d@));
        assert forall|k: int| 0 <= k < d@.ballot.len() implies i32::MIN as int <= #[trigger] d@
            .ballot[k] <= i32::MAX as int by {
            assert(d@.ballot[k] == d.ballot@[k] as int);
        }
    }
    crate::chars::chars_to_string(&out)
}

/// A stored vote-dialog value, read back.
pub fn decode_dialog(s: &str) -> (r: Option<VoteDialog>)
    ensures
        match r {
            Option::Some(d) => dec_dialog(s@) == Some(d@),
            Option::None => dec_dialog(s@) is None,
        },
{
    let cs = crate::chars::string_to_chars(s);
    let (voting_id, i1) = match parse_str_exec(&cs, 0) {
        Option::Some(x) => x,
        Option::None => {
            return None;
        },
    };
    let (user_id, i2) = match parse_str_exec(&cs, i1) {
        Option::Some(x) => x,
        Option::None => {
            return None;
        },
    };
    let (ballot, i3) = match parse_i32_list_exec(&cs, i2) {
        Option::Some(x) => x,
        Option::None => {
            return None;
        },
    };
    let (message_id, i4) = match parse_str_exec(&cs, i3) {
        Option::Some(x) => x,
        Option::None => {
            return None;
        },
    };
    let (channel_id, i5) = match parse_str_exec(&cs, i4) {
        Option::Some(x) => x,
        Option::None => {
            return None;
        },
    };
    if i5 != cs.len() {
        return None;
    }
    Some(
        VoteDialog {
            voting_id: crate::chars::chars_to_string(&voting_id),
            user_id: crate::chars::chars_to_string(&user_id),
            ballot,
            message_id: crate::chars::chars_to_string(&message_id),
            channel_id: crate::chars::chars_to_string(&channel_id),
        },
    )
}

/// An encoded vote dialog, placed anywhere, parses back to itself.
pub proof fn lemma_parse_dialog_of_enc(s: Seq<char>, i: int, d: DialogV)
    requires
        placed(s, i, enc_dialog(d)),
        dialog_wf(d),
    ensures
        parse_dialog(s, i) == Some((d, i + enc_dialog(d).len() as int)),
{
    let f1 = enc_str(d.voting_id);
    let f2 = enc_str(d.user_id);
    let f3 = enc_i32_list(d.ballot);
    let f4 = enc_str(d.message_id);
    let f5 = enc_str(d.channel_id);
    lemma_placed_concat(s, i, f1 + f2 + f3 + f4, f5);
    lemma_placed_concat(s, i, f1 + f2 + f3, f4);
    lemma_placed_concat(s, i, f1 + f2, f3);
    lemma_placed_concat(s, i, f1, f2);
    lemma_parse_str_of_enc(s, i, d.voting_id);
    lemma_parse_str_of_enc(s, i + f1.len(), d.user_id);
    lemma_parse_i32_list_of_enc(s, i + f1.len() + f2.len(), d.ballot);
    lemma_parse_str_of_enc(s, i + f1.len() + f2.len() + f3.len(), d.message_id);
    lemma_parse_str_of_enc(s, i + f1.len() + f2.len() + f3.len() + f4.len(), d.channel_id);
}

/// Reading back an encoded vote dialog yields the original.
pub proof fn lemma_dialog_round_trip(d: DialogV)
    requires
        dialog_wf(d),
    ensures
        dec_dialog(enc_dialog(d)) == Some(d),
{
    let s = enc_dialog(d);
    assert(placed(s, 0, s)) by {
        assert(s.subrange(0, s.len() as int) =~= s);
    }
    lemma_parse_dialog_of_enc(s, 0, d);
}

// ---------------------------------------------------------------------------
// Custom-id codec.
// ---------------------------------------------------------------------------

/// The stored text of a custom-id payload.
pub open spec fn enc_custom(c: CustomIDV) -> Seq<char> {
    enc_action(c.action) + enc_str(c.voting_id) + enc_opt_str(c.user_id) + enc_opt_num(c.page)
        + enc_opt_num(c.index)
}

pub open spec fn parse_custom(s: Seq<char>, i: int) -> Option<(CustomIDV, int)> {
    match parse_action(s, i) {
        Option::Some((action, i1)) => match parse_str(s, i1) {
            Option::Some((voting_id, i2)) => match parse_opt_str(s, i2) {
                Option::Some((user_id, i3)) => match parse_opt_num(s, i3) {
                    Option::Some((page, i4)) => match parse_opt_num(s, i4) {
                        Option::Some((index, i5)) => Some(
                            (CustomIDV { action, voting_id, user_id, page, index }, i5),
                        ),
                        Option::None => None,
                    },
                    Option::None => None,
                },
                Option::None => None,
            },
            Option::None => None,
        },
        Option::None => None,
    }
}

/// What a stored custom-id value means.
pub open spec fn dec_custom(s: Seq<char>) -> Option<CustomIDV> {
    match parse_custom(s, 0) {
        Option::Some((c, j)) => if j == s.len() {
            Some(c)
        } else {
            None
        },
        Option::None => None,
    }
}

/// The stored text of a custom-id payload, built.
pub fn encode_custom(c: &CustomID) -> (r: String)
    ensures
        r@ == enc_custom(c@),
        custom_wf(c@),
{
    let mut out: Vec<char> = Vec::new();
    push_action(&mut out, &c.action);
    push_str_field(&mut out, c.voting_id.as_str());
    push_opt_str_field(&mut out, &c.user_id);
    push_opt_num_field(&mut out, &c.page);
    push_opt_num_field(&mut out, &c.index);
    proof {
        assert(out@ =~= enc_custom(c@));
    }
    crate::chars::chars_to_string(&out)
}

/// A stored custom-id value, read back.
pub fn decode_custom(s: &str) -> (r: Option<CustomID>)
    ensures
        match r {
            Option::Some(c) => dec_custom(s@) == Some(c@),
            Option::None => dec_custom(s@) is None,
        },
{
    let cs = crate::chars::string_to_chars(s);
    let (action, i1) = match parse_action_exec(&cs, 0) {
        Option::Some(x) => x,
        Option::None => {
            return None;
        },
    };
    let (voting_id, i2) = match parse_str_exec(&cs, i1) {
        Option::Some(x) => x,
        Option::None => {
            return None;
        },
    };
    let (user_id, i3) = match parse_opt_str_exec(&cs, i2) {
        Option::Some(x) => x,
        Option::None => {
            return None;
        },
    };
    let (page, i4) = match parse_opt_num_exec(&cs, i3) {
        Option::Some(x) => x,
        Option::None => {
            return None;
        },
    };
    let (index, i5) = match parse_opt_num_exec(&cs, i4) {
        Option::Some(x) => x,
        Option::None => {
            return None;
        },
    };
    if i5 != cs.len() {
        return None;
    }
    let user_id_s = match user_id {
        Option::Some(u) => Option::Some(crate::chars::chars_to_string(&u)),
        Option::None => Option::None,
    };
    Some(CustomID { action, voting_id: crate::chars::chars_to_string(&voting_id), user_id: user_id_s, page, index })
}

/// An encoded custom-id payload, placed anywhere, parses back to itself.
pub proof fn lemma_parse_custom_of_enc(s: Seq<char>, i: int, c: CustomIDV)
    requires
        placed(s, i, enc_custom(c)),
        custom_wf(c),
    ensures
        parse_custom(s, i) == Some((c, i + enc_custom(c).len() as int)),
{
    let f1 = enc_action(c.action);
    let f2 = enc_str(c.voting_id);
    let f3 = enc_opt_str(c.user_id);
    let f4 = enc_opt_num(c.page);
    let f5 = enc_opt_num(c.index);
    lemma_placed_concat(s, i, f1 + f2 + f3 + f4, f5);
    lemma_placed_concat(s, i, f1 + f2 + f3, f4);
    lemma_placed_concat(s, i, f1 + f2, f3);
    lemma_placed_concat(s, i, f1, f2);
    lemma_parse_action_of_enc(s, i, c.action);
    lemma_parse_str_of_enc(s, i + f1.len(), c.voting_id);
    lemma_parse_opt_str_of_enc(s, i + f1.len() + f2.len(), c.user_id);
    lemma_parse_opt_num_of_enc(s, i + f1.len() + f2.len() + f3.len(), c.page);
    lemma_parse_opt_num_of_enc(s, i + f1.len() + f2.len() + f3.len() + f4.len(), c.index);
}

/// Reading back an encoded custom-id payload yields the original.
pub proof fn lemma_custom_round_trip(c: CustomIDV)
    requires
        custom_wf(c),
    ensures
        dec_custom(enc_custom(c)) == Some(c),
{
    let s = enc_custom(c);
    assert(placed(s, 0, s)) by {
        assert(s.subrange(0, s.len() as int) =~= s);
    }
    lemma_parse_custom_of_enc(s, 0, c);
}

} // verus!
