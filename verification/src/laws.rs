//! Laws of the storage engine, proved over the table maps that the
//! operations' contracts speak of.

use crate::db::{
    bulk_customs, bulk_index, custom_at, dialog_at, entry_keys, filter_dialogs, prefix_matched,
    resolve_customs, voting_at,
};
use crate::entities::{
    custom_wf, dec_custom, dec_dialog, dialog_wf, enc_custom, enc_dialog, enc_voting,
    lemma_custom_round_trip, lemma_dialog_round_trip, lemma_voting_round_trip, voting_wf,
    CustomIDV, DialogV, VotingV,
};
use crate::keys::{
    chars_le, composite_key, delim_free, has_prefix, lemma_composite_has_prefix, lemma_prefix_le,
    scan_prefix, scan_result,
};
use vstd::prelude::*;

verus! {

/// Once a voting is saved, reading its id yields exactly the saved value;
/// and because the id is then present, a second save of the same id can
/// only fail `AlreadyExists`, as `save_voting` succeeds on absent ids
/// alone.
pub proof fn lemma_save_then_get_voting(m: Map<Seq<char>, Seq<char>>, v: VotingV)
    requires
        voting_wf(v),
    ensures
        voting_at(m.insert(v.id, enc_voting(v)), v.id) == Some(v),
        m.insert(v.id, enc_voting(v)).contains_key(v.id),
{
    lemma_voting_round_trip(v);
}

/// Once a vote dialog is saved under its composite key, reading that pair
/// yields exactly the saved value; and because the key is then present, a
/// further save without `overwrite` can only fail `AlreadyExists`.
pub proof fn lemma_save_then_get_dialog(m: Map<Seq<char>, Seq<char>>, d: DialogV)
    requires
        dialog_wf(d),
    ensures
        dialog_at(
            m.insert(composite_key(d.voting_id, d.user_id), enc_dialog(d)),
            composite_key(d.voting_id, d.user_id),
        ) == Some(d),
        m.insert(composite_key(d.voting_id, d.user_id), enc_dialog(d)).contains_key(
            composite_key(d.voting_id, d.user_id),
        ),
{
    lemma_dialog_round_trip(d);
}

/// Once a custom id is written, reading its token yields exactly the
/// written payload.
pub proof fn lemma_write_then_get_custom(m: Map<Seq<char>, Seq<char>>, t: Seq<char>, c: CustomIDV)
    requires
        custom_wf(c),
    ensures
        custom_at(m.insert(t, enc_custom(c)), t) == Some(c),
{
    lemma_custom_round_trip(c);
}

/// Removing a dialog key is idempotent, and removing an absent key changes
/// nothing: deleting an already-deleted or never-saved dialog succeeds
/// without effect.
pub proof fn lemma_delete_dialog_idempotent(m: Map<Seq<char>, Seq<char>>, k: Seq<char>)
    ensures
        m.remove(k).remove(k) == m.remove(k),
        !m.contains_key(k) ==> m.remove(k) == m,
{
    assert(m.remove(k).remove(k) =~= m.remove(k));
    if !m.contains_key(k) {
        assert(m.remove(k) =~= m);
    }
}

/// Everything the dialog filter keeps decodes from some scanned entry and
/// carries the queried voting id.
proof fn lemma_filter_dialogs_sound(
    es: Seq<(Seq<char>, Seq<char>)>,
    vid: Seq<char>,
    out: Seq<DialogV>,
)
    requires
        filter_dialogs(es, vid) == Some(out),
    ensures
        forall|i: int|
            0 <= i < out.len() ==> (#[trigger] out[i]).voting_id == vid && exists|j: int|
                0 <= j < es.len() && dec_dialog((#[trigger] es[j]).1) == Some(out[i]),
    decreases es.len(),
{
    if es.len() == 0 {
    } else {
        let d = dec_dialog(es[0].1).unwrap();
        let rest = filter_dialogs(es.drop_first(), vid).unwrap();
        lemma_filter_dialogs_sound(es.drop_first(), vid, rest);
        assert forall|i: int| 0 <= i < out.len() implies (#[trigger] out[i]).voting_id == vid
            && exists|j: int|
            0 <= j < es.len() && dec_dialog((#[trigger] es[j]).1) == Some(out[i]) by {
            if d.voting_id == vid && i == 0 {
                assert(out[0] == d);
                assert(dec_dialog(es[0].1) == Some(out[0]));
            } else {
                let ii = if d.voting_id == vid {
                    i - 1
                } else {
                    i
                };
                assert(out[i] == rest[ii]);
                let j = choose|j: int|
                    0 <= j < es.drop_first().len() && dec_dialog(
                        (#[trigger] es.drop_first()[j]).1,
                    ) == Some(rest[ii]);
                assert(es.drop_first()[j] == es[j + 1]);
                assert(dec_dialog(es[j + 1].1) == Some(out[i]));
            }
        }
    }
}

/// A scanned entry whose value decodes to a dialog of the queried voting
/// is kept by the filter.
proof fn lemma_filter_dialogs_complete(
    es: Seq<(Seq<char>, Seq<char>)>,
    vid: Seq<char>,
    out: Seq<DialogV>,
    j: int,
    d: DialogV,
)
    requires
        filter_dialogs(es, vid) == Some(out),
        0 <= j < es.len(),
        dec_dialog(es[j].1) == Some(d),
        d.voting_id == vid,
    ensures
        out.contains(d),
    decreases es.len(),
{
    let d0 = dec_dialog(es[0].1).unwrap();
    let rest = filter_dialogs(es.drop_first(), vid).unwrap();
    if j == 0 {
        assert(out == seq![d] + rest);
        assert(out[0] == d);
    } else {
        assert(es.drop_first()[j - 1] == es[j]);
        lemma_filter_dialogs_complete(es.drop_first(), vid, rest, j - 1, d);
        let i = choose|i: int| 0 <= i < rest.len() && rest[i] == d;
        if d0.voting_id == vid {
            assert(out == seq![d0] + rest);
            assert(out[i + 1] == d);
        } else {
            assert(out == rest);
        }
    }
}

/// Scanning one voting's dialogs is exact: everything returned is a stored
/// row carrying the queried voting id, and every row stored under the
/// voting's own composite key whose content names that voting is returned
/// — rows of a lexicographically adjacent voting never leak in.
pub proof fn lemma_get_voting_dialogs_exact(
    m: Map<Seq<char>, Seq<char>>,
    vid: Seq<char>,
    es: Seq<(Seq<char>, Seq<char>)>,
    out: Seq<DialogV>,
)
    requires
        scan_result(m, scan_prefix(vid), es),
        filter_dialogs(es, vid) == Some(out),
    ensures
        forall|i: int|
            0 <= i < out.len() ==> (#[trigger] out[i]).voting_id == vid && exists|k: Seq<char>|
                #[trigger] m.contains_key(k) && dec_dialog(m[k]) == Some(out[i]),
        forall|u: Seq<char>, d: DialogV|
            #![trigger composite_key(vid, u), out.contains(d)]
            m.contains_key(composite_key(vid, u)) && dec_dialog(m[composite_key(vid, u)]) == Some(
                d,
            ) && d.voting_id == vid ==> out.contains(d),
{
    lemma_filter_dialogs_sound(es, vid, out);
    assert forall|i: int| 0 <= i < out.len() implies (#[trigger] out[i]).voting_id == vid
        && exists|k: Seq<char>|
        #[trigger] m.contains_key(k) && dec_dialog(m[k]) == Some(out[i]) by {
        let j = choose|j: int|
            0 <= j < es.len() && dec_dialog((#[trigger] es[j]).1) == Some(out[i]);
        assert(m.contains_key(es[j].0) && m[es[j].0] == es[j].1);
        assert(dec_dialog(m[es[j].0]) == Some(out[i]));
    }
    assert forall|u: Seq<char>, d: DialogV|
        #![trigger composite_key(vid, u), out.contains(d)]
        m.contains_key(composite_key(vid, u)) && dec_dialog(m[composite_key(vid, u)]) == Some(d)
            && d.voting_id == vid implies out.contains(d) by {
        let kk = composite_key(vid, u);
        lemma_composite_has_prefix(vid, u);
        lemma_prefix_le(kk, scan_prefix(vid));
        assert(chars_le(scan_prefix(vid), kk));
        let j = choose|j: int| 0 <= j < es.len() && (#[trigger] es[j]).0 == kk;
        assert(es[j].1 == m[kk]);
        lemma_filter_dialogs_complete(es, vid, out, j, d);
    }
}

/// Everything the custom-id resolver returns was reached through an index
/// entry inside the voting's prefix run and decodes from the custom-id
/// table.
proof fn lemma_resolve_customs_sound(
    customs: Map<Seq<char>, Seq<char>>,
    es: Seq<(Seq<char>, Seq<char>)>,
    p: Seq<char>,
    out: Seq<CustomIDV>,
)
    requires
        resolve_customs(customs, es, p) == Some(out),
    ensures
        forall|i: int|
            0 <= i < out.len() ==> exists|j: int|
                0 <= j < es.len() && has_prefix((#[trigger] es[j]).0, p) && customs.contains_key(
                    es[j].1,
                ) && dec_custom(customs[es[j].1]) == Some(#[trigger] out[i]),
    decreases es.len(),
{
    if es.len() == 0 {
    } else if !has_prefix(es[0].0, p) || !customs.contains_key(es[0].1) {
        lemma_resolve_customs_sound(customs, es.drop_first(), p, out);
        assert forall|i: int| 0 <= i < out.len() implies exists|j: int|
            0 <= j < es.len() && has_prefix((#[trigger] es[j]).0, p) && customs.contains_key(
                es[j].1,
            ) && dec_custom(customs[es[j].1]) == Some(#[trigger] out[i]) by {
            let j = choose|j: int|
                0 <= j < es.drop_first().len() && has_prefix(
                    (#[trigger] es.drop_first()[j]).0,
                    p,
                ) && customs.contains_key(es.drop_first()[j].1) && dec_custom(
                    customs[es.drop_first()[j].1],
                ) == Some(out[i]);
            assert(es.drop_first()[j] == es[j + 1]);
        }
    } else {
        let c = dec_custom(customs[es[0].1]).unwrap();
        let rest = resolve_customs(customs, es.drop_first(), p).unwrap();
        lemma_resolve_customs_sound(customs, es.drop_first(), p, rest);
        assert(out == seq![c] + rest);
        assert forall|i: int| 0 <= i < out.len() implies exists|j: int|
            0 <= j < es.len() && has_prefix((#[trigger] es[j]).0, p) && customs.contains_key(
                es[j].1,
            ) && dec_custom(customs[es[j].1]) == Some(#[trigger] out[i]) by {
            if i == 0 {
                assert(out[0] == c);
                assert(has_prefix(es[0].0, p) && customs.contains_key(es[0].1) && dec_custom(
                    customs[es[0].1],
                ) == Some(out[0]));
            } else {
                assert(out[i] == rest[i - 1]);
                let j = choose|j: int|
                    0 <= j < es.drop_first().len() && has_prefix(
                        (#[trigger] es.drop_first()[j]).0,
                        p,
                    ) && customs.contains_key(es.drop_first()[j].1) && dec_custom(
                        customs[es.drop_first()[j].1],
                    ) == Some(rest[i - 1]);
                assert(es.drop_first()[j] == es[j + 1]);
            }
        }
    }
}

/// An index entry inside the prefix run whose token still resolves and
/// decodes is returned by the resolver.
proof fn lemma_resolve_customs_complete(
    customs: Map<Seq<char>, Seq<char>>,
    es: Seq<(Seq<char>, Seq<char>)>,
    p: Seq<char>,
    out: Seq<CustomIDV>,
    j: int,
    c: CustomIDV,
)
    requires
        resolve_customs(customs, es, p) == Some(out),
        0 <= j < es.len(),
        has_prefix(es[j].0, p),
        customs.contains_key(es[j].1),
        dec_custom(customs[es[j].1]) == Some(c),
    ensures
        out.contains(c),
    decreases es.len(),
{
    if j == 0 {
        let rest = resolve_customs(customs, es.drop_first(), p).unwrap();
        assert(out == seq![c] + rest);
        assert(out[0] == c);
    } else {
        assert(es.drop_first()[j - 1] == es[j]);
        if !has_prefix(es[0].0, p) || !customs.contains_key(es[0].1) {
            lemma_resolve_customs_complete(customs, es.drop_first(), p, out, j - 1, c);
        } else {
            let c0 = dec_custom(customs[es[0].1]).unwrap();
            let rest = resolve_customs(customs, es.drop_first(), p).unwrap();
            lemma_resolve_customs_complete(customs, es.drop_first(), p, rest, j - 1, c);
            let i = choose|i: int| 0 <= i < rest.len() && rest[i] == c;
            assert(out == seq![c0] + rest);
            assert(out[i + 1] == c);
        }
    }
}

/// Reading one voting's custom ids through the index is exact: everything
/// returned was reached through an index entry under the voting's prefix
/// whose token still resolves, and every such entry is returned.
pub proof fn lemma_get_custom_ids_exact(
    im: Map<Seq<char>, Seq<char>>,
    cm: Map<Seq<char>, Seq<char>>,
    vid: Seq<char>,
    es: Seq<(Seq<char>, Seq<char>)>,
    out: Seq<CustomIDV>,
)
    requires
        scan_result(im, scan_prefix(vid), es),
        resolve_customs(cm, es, scan_prefix(vid)) == Some(out),
    ensures
        forall|c: CustomIDV|
            #[trigger] out.contains(c) ==> exists|k: Seq<char>|
                #[trigger] im.contains_key(k) && has_prefix(k, scan_prefix(vid))
                    && cm.contains_key(im[k]) && dec_custom(cm[im[k]]) == Some(c),
        forall|t: Seq<char>, c: CustomIDV|
            #![trigger composite_key(vid, t), out.contains(c)]
            im.contains_key(composite_key(vid, t)) && cm.contains_key(im[composite_key(vid, t)])
                && dec_custom(cm[im[composite_key(vid, t)]]) == Some(c) ==> out.contains(c),
{
    lemma_resolve_customs_sound(cm, es, scan_prefix(vid), out);
    assert forall|c: CustomIDV| #[trigger] out.contains(c) implies exists|k: Seq<char>|
        #[trigger] im.contains_key(k) && has_prefix(k, scan_prefix(vid)) && cm.contains_key(
            im[k],
        ) && dec_custom(cm[im[k]]) == Some(c) by {
        let i = choose|i: int| 0 <= i < out.len() && out[i] == c;
        let j = choose|j: int|
            0 <= j < es.len() && has_prefix((#[trigger] es[j]).0, scan_prefix(vid))
                && cm.contains_key(es[j].1) && dec_custom(cm[es[j].1]) == Some(out[i]);
        assert(im.contains_key(es[j].0) && im[es[j].0] == es[j].1);
        assert(im.contains_key(es[j].0) && has_prefix(es[j].0, scan_prefix(vid))
            && cm.contains_key(im[es[j].0]) && dec_custom(cm[im[es[j].0]]) == Some(c));
    }
    assert forall|t: Seq<char>, c: CustomIDV|
        #![trigger composite_key(vid, t), out.contains(c)]
        im.contains_key(composite_key(vid, t)) && cm.contains_key(im[composite_key(vid, t)])
            && dec_custom(cm[im[composite_key(vid, t)]]) == Some(c) implies out.contains(c) by {
        let kk = composite_key(vid, t);
        lemma_composite_has_prefix(vid, t);
        lemma_prefix_le(kk, scan_prefix(vid));
        let j = choose|j: int| 0 <= j < es.len() && (#[trigger] es[j]).0 == kk;
        assert(es[j].1 == im[kk]);
        lemma_resolve_customs_complete(cm, es, scan_prefix(vid), out, j, c);
    }
}

/// The index key a saved pair writes.
pub open spec fn pair_key(p: (Seq<char>, CustomIDV)) -> Seq<char> {
    composite_key(p.1.voting_id, p.0)
}

/// A key is in the index after a bulk save exactly if it was there before
/// or some pair writes it.
proof fn lemma_bulk_index_mem(
    m: Map<Seq<char>, Seq<char>>,
    pairs: Seq<(Seq<char>, CustomIDV)>,
    k: Seq<char>,
)
    ensures
        bulk_index(m, pairs).contains_key(k) <==> (m.contains_key(k) || exists|j: int|
            0 <= j < pairs.len() && pair_key(#[trigger] pairs[j]) == k),
    decreases pairs.len(),
{
    if pairs.len() == 0 {
    } else {
        lemma_bulk_index_mem(m.insert(pair_key(pairs[0]), pairs[0].0), pairs.drop_first(), k);
        assert forall|j: int|
            0 <= j < pairs.drop_first().len() implies #[trigger] pairs.drop_first()[j]
            == pairs[j + 1] by {}
        if bulk_index(m, pairs).contains_key(k) && !m.contains_key(k) {
            if pair_key(pairs[0]) == k {
            } else {
                let j = choose|j: int|
                    0 <= j < pairs.drop_first().len() && pair_key(
                        #[trigger] pairs.drop_first()[j],
                    ) == k;
                assert(pair_key(pairs[j + 1]) == k);
            }
        }
        if exists|j: int| 0 <= j < pairs.len() && pair_key(#[trigger] pairs[j]) == k {
            let j = choose|j: int| 0 <= j < pairs.len() && pair_key(#[trigger] pairs[j]) == k;
            if j == 0 {
            } else {
                assert(pair_key(pairs.drop_first()[j - 1]) == k);
            }
        }
    }
}

/// After a bulk save with delimiter-free voting ids, every pair's index
/// key holds that pair's token: two pairs can share a key only by sharing
/// the token too.
proof fn lemma_bulk_index_value(
    m: Map<Seq<char>, Seq<char>>,
    pairs: Seq<(Seq<char>, CustomIDV)>,
    j: int,
)
    requires
        forall|l: int| 0 <= l < pairs.len() ==> delim_free((#[trigger] pairs[l]).1.voting_id),
        0 <= j < pairs.len(),
    ensures
        bulk_index(m, pairs).contains_key(pair_key(pairs[j])),
        bulk_index(m, pairs)[pair_key(pairs[j])] == pairs[j].0,
    decreases pairs.len(),
{
    let m2 = m.insert(pair_key(pairs[0]), pairs[0].0);
    assert forall|l: int|
        0 <= l < pairs.drop_first().len() implies #[trigger] pairs.drop_first()[l]
        == pairs[l + 1] by {}
    if j == 0 {
        lemma_bulk_index_mem(m2, pairs.drop_first(), pair_key(pairs[0]));
        if exists|l: int|
            0 <= l < pairs.drop_first().len() && pair_key(#[trigger] pairs.drop_first()[l])
                == pair_key(pairs[0]) {
            let l = choose|l: int|
                0 <= l < pairs.drop_first().len() && pair_key(#[trigger] pairs.drop_first()[l])
                    == pair_key(pairs[0]);
            crate::keys::lemma_composite_key_injective(
                pairs[l + 1].1.voting_id,
                pairs[l + 1].0,
                pairs[0].1.voting_id,
                pairs[0].0,
            );
            lemma_bulk_index_value(m2, pairs.drop_first(), l);
        } else {
            lemma_bulk_index_untouched(m2, pairs.drop_first(), pair_key(pairs[0]));
        }
    } else {
        lemma_bulk_index_value(m2, pairs.drop_first(), j - 1);
    }
}

/// A key no pair writes keeps its prior binding through a bulk save.
proof fn lemma_bulk_index_untouched(
    m: Map<Seq<char>, Seq<char>>,
    pairs: Seq<(Seq<char>, CustomIDV)>,
    k: Seq<char>,
)
    requires
        forall|l: int| 0 <= l < pairs.len() ==> pair_key(#[trigger] pairs[l]) != k,
    ensures
        bulk_index(m, pairs).contains_key(k) == m.contains_key(k),
        m.contains_key(k) ==> bulk_index(m, pairs)[k] == m[k],
    decreases pairs.len(),
{
    if pairs.len() > 0 {
        assert(pair_key(pairs[0]) != k);
        assert forall|l: int|
            0 <= l < pairs.drop_first().len() implies pair_key(
            #[trigger] pairs.drop_first()[l],
        ) != k by {
            assert(pairs.drop_first()[l] == pairs[l + 1]);
        }
        lemma_bulk_index_untouched(
            m.insert(pair_key(pairs[0]), pairs[0].0),
            pairs.drop_first(),
            k,
        );
    }
}

/// A token no pair uses keeps its prior binding through a bulk save.
proof fn lemma_bulk_customs_untouched(
    m: Map<Seq<char>, Seq<char>>,
    pairs: Seq<(Seq<char>, CustomIDV)>,
    t: Seq<char>,
)
    requires
        forall|l: int| 0 <= l < pairs.len() ==> (#[trigger] pairs[l]).0 != t,
    ensures
        bulk_customs(m, pairs).contains_key(t) == m.contains_key(t),
        m.contains_key(t) ==> bulk_customs(m, pairs)[t] == m[t],
    decreases pairs.len(),
{
    if pairs.len() > 0 {
        assert(pairs[0].0 != t);
        assert forall|l: int|
            0 <= l < pairs.drop_first().len() implies (#[trigger] pairs.drop_first()[l]).0
            != t by {
            assert(pairs.drop_first()[l] == pairs[l + 1]);
        }
        lemma_bulk_customs_untouched(
            m.insert(pairs[0].0, enc_custom(pairs[0].1)),
            pairs.drop_first(),
            t,
        );
    }
}

/// With pairwise distinct tokens, a bulk save leaves each pair's payload
/// under its token.
proof fn lemma_bulk_customs_value(
    m: Map<Seq<char>, Seq<char>>,
    pairs: Seq<(Seq<char>, CustomIDV)>,
    j: int,
)
    requires
        forall|l1: int, l2: int|
            0 <= l1 < l2 < pairs.len() ==> (#[trigger] pairs[l1]).0 != (#[trigger] pairs[l2]).0,
        0 <= j < pairs.len(),
    ensures
        bulk_customs(m, pairs).contains_key(pairs[j].0),
        bulk_customs(m, pairs)[pairs[j].0] == enc_custom(pairs[j].1),
    decreases pairs.len(),
{
    let m2 = m.insert(pairs[0].0, enc_custom(pairs[0].1));
    assert forall|l: int|
        0 <= l < pairs.drop_first().len() implies #[trigger] pairs.drop_first()[l]
        == pairs[l + 1] by {}
    if j == 0 {
        assert forall|l: int|
            0 <= l < pairs.drop_first().len() implies (#[trigger] pairs.drop_first()[l]).0
            != pairs[0].0 by {
            assert(pairs.drop_first()[l] == pairs[l + 1]);
            assert(pairs[0].0 != pairs[l + 1].0);
        }
        lemma_bulk_customs_untouched(m2, pairs.drop_first(), pairs[0].0);
    } else {
        lemma_bulk_customs_value(m2, pairs.drop_first(), j - 1);
    }
}

/// Saving a batch of custom ids into an empty store and then reading one
/// voting's custom ids through the index is exact: with delimiter-free
/// voting ids and pairwise distinct tokens, the result holds exactly the
/// payloads of the saved pairs that reference the queried voting.
pub proof fn lemma_bulk_save_then_get_custom_ids(
    pairs: Seq<(Seq<char>, CustomIDV)>,
    vid: Seq<char>,
    es: Seq<(Seq<char>, Seq<char>)>,
    out: Seq<CustomIDV>,
)
    requires
        delim_free(vid),
        forall|j: int|
            0 <= j < pairs.len() ==> delim_free((#[trigger] pairs[j]).1.voting_id) && custom_wf(
                pairs[j].1,
            ),
        forall|j1: int, j2: int|
            0 <= j1 < j2 < pairs.len() ==> (#[trigger] pairs[j1]).0 != (#[trigger] pairs[j2]).0,
        scan_result(
            bulk_index(Map::<Seq<char>, Seq<char>>::empty(), pairs),
            scan_prefix(vid),
            es,
        ),
        resolve_customs(
            bulk_customs(Map::<Seq<char>, Seq<char>>::empty(), pairs),
            es,
            scan_prefix(vid),
        ) == Some(out),
    ensures
        forall|j: int|
            0 <= j < pairs.len() && (#[trigger] pairs[j]).1.voting_id == vid ==> out.contains(
                pairs[j].1,
            ),
        forall|c: CustomIDV|
            #[trigger] out.contains(c) ==> c.voting_id == vid && exists|j: int|
                0 <= j < pairs.len() && (#[trigger] pairs[j]).1 == c,
{
    let im = bulk_index(Map::<Seq<char>, Seq<char>>::empty(), pairs);
    let cm = bulk_customs(Map::<Seq<char>, Seq<char>>::empty(), pairs);
    let p = scan_prefix(vid);
    lemma_get_custom_ids_exact(im, cm, vid, es, out);
    assert forall|j: int|
        0 <= j < pairs.len() && (#[trigger] pairs[j]).1.voting_id == vid implies out.contains(
        pairs[j].1,
    ) by {
        lemma_bulk_index_value(Map::<Seq<char>, Seq<char>>::empty(), pairs, j);
        lemma_bulk_customs_value(Map::<Seq<char>, Seq<char>>::empty(), pairs, j);
        lemma_custom_round_trip(pairs[j].1);
        assert(pair_key(pairs[j]) == composite_key(vid, pairs[j].0));
        assert(im.contains_key(composite_key(vid, pairs[j].0)));
        assert(im[composite_key(vid, pairs[j].0)] == pairs[j].0);
        assert(cm.contains_key(pairs[j].0));
        assert(dec_custom(cm[pairs[j].0]) == Some(pairs[j].1));
    }
    assert forall|c: CustomIDV| #[trigger] out.contains(c) implies c.voting_id == vid && exists|
        j: int,
    |
        0 <= j < pairs.len() && (#[trigger] pairs[j]).1 == c by {
        let k = choose|k: Seq<char>|
            #[trigger] im.contains_key(k) && has_prefix(k, p) && cm.contains_key(im[k])
                && dec_custom(cm[im[k]]) == Some(c);
        lemma_bulk_index_mem(Map::<Seq<char>, Seq<char>>::empty(), pairs, k);
        let j = choose|j: int| 0 <= j < pairs.len() && pair_key(#[trigger] pairs[j]) == k;
        crate::keys::lemma_prefix_pins_id(pairs[j].1.voting_id, pairs[j].0, vid);
        lemma_bulk_index_value(Map::<Seq<char>, Seq<char>>::empty(), pairs, j);
        lemma_bulk_customs_value(Map::<Seq<char>, Seq<char>>::empty(), pairs, j);
        lemma_custom_round_trip(pairs[j].1);
        assert(im[k] == pairs[j].0);
        assert(cm[pairs[j].0] == enc_custom(pairs[j].1));
        assert(Some(c) == Some(pairs[j].1));
        assert(pairs[j].1 == c);
    }
}

/// Every key the prefix run holds carries the prefix.
proof fn lemma_prefix_matched_sound(es: Seq<(Seq<char>, Seq<char>)>, p: Seq<char>)
    ensures
        forall|k: Seq<char>|
            #[trigger] entry_keys(prefix_matched(es, p)).contains(k) ==> has_prefix(k, p),
    decreases es.len(),
{
    if es.len() == 0 {
        assert(prefix_matched(es, p).map_values(|e: (Seq<char>, Seq<char>)| e.0) =~= Seq::<
            Seq<char>,
        >::empty());
        assert forall|k: Seq<char>|
            #[trigger] entry_keys(prefix_matched(es, p)).contains(k) implies has_prefix(k, p) by {
            let ks = prefix_matched(es, p).map_values(|e: (Seq<char>, Seq<char>)| e.0);
            let i = choose|i: int| 0 <= i < ks.len() && ks[i] == k;
        }
    } else {
        lemma_prefix_matched_sound(es.drop_first(), p);
        let tail = prefix_matched(es.drop_first(), p);
        assert forall|k: Seq<char>|
            #[trigger] entry_keys(prefix_matched(es, p)).contains(k) implies has_prefix(k, p) by {
            let run = prefix_matched(es, p);
            let ks = run.map_values(|e: (Seq<char>, Seq<char>)| e.0);
            let i = choose|i: int| 0 <= i < ks.len() && ks[i] == k;
            assert(run[i].0 == k);
            if has_prefix(es[0].0, p) {
                assert(run == seq![es[0]] + tail);
                if i == 0 {
                    assert(k == es[0].0);
                } else {
                    assert(run[i] == tail[i - 1]);
                    assert(tail.map_values(|e: (Seq<char>, Seq<char>)| e.0)[i - 1] == k);
                    assert(entry_keys(tail).contains(k));
                }
            } else {
                assert(run == tail);
                assert(tail.map_values(|e: (Seq<char>, Seq<char>)| e.0)[i] == k);
                assert(entry_keys(tail).contains(k));
            }
        }
    }
}

/// An entry carrying the prefix is in the prefix run.
proof fn lemma_prefix_matched_complete(es: Seq<(Seq<char>, Seq<char>)>, p: Seq<char>, j: int)
    requires
        0 <= j < es.len(),
        has_prefix(es[j].0, p),
    ensures
        entry_keys(prefix_matched(es, p)).contains(es[j].0),
    decreases es.len(),
{
    let run = prefix_matched(es, p);
    let tail = prefix_matched(es.drop_first(), p);
    if j == 0 {
        assert(run == seq![es[0]] + tail);
        assert(run[0].0 == es[0].0);
        assert(run.map_values(|e: (Seq<char>, Seq<char>)| e.0)[0] == es[0].0);
    } else {
        assert(es.drop_first()[j - 1] == es[j]);
        lemma_prefix_matched_complete(es.drop_first(), p, j - 1);
        let ks = tail.map_values(|e: (Seq<char>, Seq<char>)| e.0);
        let i = choose|i: int| 0 <= i < ks.len() && ks[i] == es[j].0;
        if has_prefix(es[0].0, p) {
            assert(run == seq![es[0]] + tail);
            assert(run[i + 1] == tail[i]);
            assert(run.map_values(|e: (Seq<char>, Seq<char>)| e.0)[i + 1] == es[j].0);
        } else {
            assert(run == tail);
            assert(run.map_values(|e: (Seq<char>, Seq<char>)| e.0)[i] == es[j].0);
        }
    }
}

/// Deleting one voting's custom ids clears exactly that voting's index
/// run: afterwards no index key under the voting's prefix remains, while
/// every index entry outside the prefix is untouched.
pub proof fn lemma_delete_custom_ids_exact(
    im: Map<Seq<char>, Seq<char>>,
    vid: Seq<char>,
    es: Seq<(Seq<char>, Seq<char>)>,
)
    requires
        scan_result(im, scan_prefix(vid), es),
    ensures
        forall|k: Seq<char>|
            #[trigger] im.contains_key(k) && has_prefix(k, scan_prefix(vid)) ==> !im.remove_keys(
                entry_keys(prefix_matched(es, scan_prefix(vid))),
            ).contains_key(k),
        forall|k: Seq<char>|
            #[trigger] im.contains_key(k) && !has_prefix(k, scan_prefix(vid)) ==> im.remove_keys(
                entry_keys(prefix_matched(es, scan_prefix(vid))),
            ).contains_key(k) && im.remove_keys(
                entry_keys(prefix_matched(es, scan_prefix(vid))),
            )[k] == im[k],
{
    let p = scan_prefix(vid);
    let removed = entry_keys(prefix_matched(es, p));
    assert forall|k: Seq<char>|
        #[trigger] im.contains_key(k) && has_prefix(k, p) implies !im.remove_keys(
        removed,
    ).contains_key(k) by {
        lemma_prefix_le(k, p);
        let j = choose|j: int| 0 <= j < es.len() && (#[trigger] es[j]).0 == k;
        lemma_prefix_matched_complete(es, p, j);
        assert(removed.contains(k));
    }
    assert forall|k: Seq<char>|
        #[trigger] im.contains_key(k) && !has_prefix(k, p) implies im.remove_keys(
        removed,
    ).contains_key(k) && im.remove_keys(removed)[k] == im[k] by {
        lemma_prefix_matched_sound(es, p);
        assert(!removed.contains(k));
    }
}

} // verus!
