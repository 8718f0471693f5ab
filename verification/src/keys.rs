//! Composite keys and the key order used by range scans.
//!
//! Keys join identifier parts with a fixed delimiter.  Range scans start at
//! `id` followed by the delimiter and walk keys in ascending lexicographic
//! order; the keys carrying that prefix form one contiguous run, so a scan
//! may stop at the first key that no longer matches.

use vstd::prelude::*;

verus! {

/// The delimiter placed between the parts of a composite key.
pub open spec fn delim() -> char {
    '-'
}

/// Strict lexicographic order on character sequences.
pub open spec fn chars_lt(a: Seq<char>, b: Seq<char>) -> bool
    decreases a.len(),
{
    if b.len() == 0 {
        false
    } else if a.len() == 0 {
        true
    } else if a[0] < b[0] {
        true
    } else if a[0] == b[0] {
        chars_lt(a.drop_first(), b.drop_first())
    } else {
        false
    }
}

/// Lexicographic order, allowing equality.
pub open spec fn chars_le(a: Seq<char>, b: Seq<char>) -> bool {
    chars_lt(a, b) || a == b
}

/// `p` is a prefix of `s`.
pub open spec fn has_prefix(s: Seq<char>, p: Seq<char>) -> bool {
    p.len() <= s.len() && s.subrange(0, p.len() as int) == p
}

/// `s` contains no delimiter, so it cannot blur a composite key's boundary.
pub open spec fn delim_free(s: Seq<char>) -> bool {
    forall|i: int| 0 <= i < s.len() ==> s[i] != delim()
}

/// The key of a vote dialog: voting id, delimiter, user id.
pub open spec fn composite_key(first: Seq<char>, second: Seq<char>) -> Seq<char> {
    first + seq![delim()] + second
}

/// The lower bound of a range scan over the keys of one owning id.
pub open spec fn scan_prefix(id: Seq<char>) -> Seq<char> {
    id + seq![delim()]
}

/// A sequence is never below its own prefix.
pub proof fn lemma_prefix_le(s: Seq<char>, p: Seq<char>)
    requires
        has_prefix(s, p),
    ensures
        chars_le(p, s),
    decreases p.len(),
{
    if p.len() == 0 {
        if s.len() == 0 {
            assert(p =~= s);
        }
    } else {
        assert(s[0] == p[0]);
        assert(has_prefix(s.drop_first(), p.drop_first())) by {
            assert(s.drop_first().subrange(0, p.len() - 1) =~= s.subrange(
                0,
                p.len() as int,
            ).drop_first());
        }
        lemma_prefix_le(s.drop_first(), p.drop_first());
        if p.drop_first() == s.drop_first() {
            if p.len() == s.len() {
                assert(p =~= s);
            } else {
                assert(chars_lt(p, s));
            }
        }
    }
}

/// In an ascending walk that began at `p`, once one key fails to carry the
/// prefix `p`, every later key fails as well: the keys carrying `p` form one
/// contiguous run at the start.
pub proof fn lemma_prefix_run_ends(p: Seq<char>, k: Seq<char>, k2: Seq<char>)
    requires
        chars_le(p, k),
        !has_prefix(k, p),
        chars_lt(k, k2),
    ensures
        !has_prefix(k2, p),
    decreases p.len(),
{
    if p.len() == 0 {
        assert(has_prefix(k, p)) by {
            assert(k.subrange(0, 0) =~= p);
        }
    } else {
        if k.len() == 0 {
            assert(!chars_le(p, k));
        } else if has_prefix(k2, p) {
            assert(k2[0] == p[0]);
            if k[0] == p[0] {
                assert(has_prefix(k2.drop_first(), p.drop_first())) by {
                    assert(k2.drop_first().subrange(0, p.len() - 1) =~= k2.subrange(
                        0,
                        p.len() as int,
                    ).drop_first());
                }
                assert(!has_prefix(k.drop_first(), p.drop_first())) by {
                    if has_prefix(k.drop_first(), p.drop_first()) {
                        assert(k.subrange(0, p.len() as int) =~= seq![p[0]] + k.drop_first().subrange(
                            0,
                            p.len() - 1,
                        ));
                        assert(p =~= seq![p[0]] + p.drop_first());
                    }
                }
                assert(chars_le(p.drop_first(), k.drop_first())) by {
                    if chars_lt(p, k) {
                        assert(chars_lt(p.drop_first(), k.drop_first()));
                    } else {
                        assert(p =~= k);
                        assert(has_prefix(k, p)) by {
                            assert(k.subrange(0, p.len() as int) =~= p);
                        }
                    }
                }
                assert(chars_lt(k.drop_first(), k2.drop_first())) by {
                    if k[0] == k2[0] {
                    } else {
                        assert(k[0] < k2[0]);
                        assert(false);
                    }
                }
                lemma_prefix_run_ends(p.drop_first(), k.drop_first(), k2.drop_first());
            } else {
                // p <= k at the first character, and k < k2 which starts with p[0].
                assert(chars_lt(p, k));
                assert(p[0] < k[0] || p[0] == k[0]);
                assert(p[0] < k[0]);
                assert(k[0] < k2[0] || k[0] == k2[0]);
                assert(false);
            }
        }
    }
}

/// A composite key carries the scan prefix of its own first part.
pub proof fn lemma_composite_has_prefix(first: Seq<char>, second: Seq<char>)
    ensures
        has_prefix(composite_key(first, second), scan_prefix(first)),
{
    assert(composite_key(first, second).subrange(0, first.len() as int + 1) =~= scan_prefix(
        first,
    ));
}

/// With delimiter-free ids, a composite key carries the scan prefix of a
/// different id only if the two ids are equal: the delimiter pins the
/// boundary of the first part.
pub proof fn lemma_prefix_pins_id(
    owner: Seq<char>,
    second: Seq<char>,
    queried: Seq<char>,
)
    requires
        delim_free(owner),
        delim_free(queried),
        has_prefix(composite_key(owner, second), scan_prefix(queried)),
    ensures
        owner == queried,
{
    let k = composite_key(owner, second);
    let p = scan_prefix(queried);
    if queried.len() < owner.len() {
        assert(k[queried.len() as int] == owner[queried.len() as int]);
        assert(k[queried.len() as int] == p[queried.len() as int]);
        assert(p[queried.len() as int] == delim());
        assert(false);
    } else if queried.len() > owner.len() {
        assert(k[owner.len() as int] == delim());
        assert(k[owner.len() as int] == p[owner.len() as int]);
        assert(p[owner.len() as int] == queried[owner.len() as int]);
        assert(false);
    } else {
        assert(owner =~= queried) by {
            assert forall|i: int| 0 <= i < owner.len() implies owner[i] == queried[i] by {
                assert(k[i] == owner[i]);
                assert(p[i] == queried[i]);
                assert(k.subrange(0, p.len() as int) == p);
                assert(k.subrange(0, p.len() as int)[i] == p[i]);
            }
        }
    }
}

/// With delimiter-free first parts, equal composite keys come from equal
/// parts: the delimiter pins the boundary.
pub proof fn lemma_composite_key_injective(
    v1: Seq<char>,
    t1: Seq<char>,
    v2: Seq<char>,
    t2: Seq<char>,
)
    requires
        delim_free(v1),
        delim_free(v2),
        composite_key(v1, t1) == composite_key(v2, t2),
    ensures
        v1 == v2,
        t1 == t2,
{
    lemma_composite_has_prefix(v1, t1);
    lemma_prefix_pins_id(v2, t2, v1);
    let k = composite_key(v1, t1);
    assert(t1.len() == t2.len());
    assert(t1 =~= t2) by {
        assert forall|i: int| 0 <= i < t1.len() implies t1[i] == t2[i] by {
            assert(composite_key(v1, t1)[v1.len() + 1 + i] == t1[i]);
            assert(composite_key(v2, t2)[v2.len() + 1 + i] == t2[i]);
        }
    }
}

/// Build the composite key of two identifier parts.
pub fn encode_key(first: &str, second: &str) -> (r: String)
    ensures
        r@ == composite_key(first@, second@),
{
    proof {
        reveal_strlit("-");
    }
    let mut s = <String as vstd::string::StringExecFns>::from_str(first);
    <String as vstd::string::StringExecFns>::append(&mut s, "-");
    <String as vstd::string::StringExecFns>::append(&mut s, second);
    proof {
        assert("-"@ =~= seq![delim()]);
        assert(s@ =~= composite_key(first@, second@));
    }
    s
}

/// Build the lower bound of a range scan for one owning id.
pub fn encode_scan_prefix(id: &str) -> (r: String)
    ensures
        r@ == scan_prefix(id@),
{
    proof {
        reveal_strlit("-");
    }
    let mut s = <String as vstd::string::StringExecFns>::from_str(id);
    <String as vstd::string::StringExecFns>::append(&mut s, "-");
    proof {
        assert("-"@ =~= seq![delim()]);
        assert(s@ =~= scan_prefix(id@));
    }
    s
}

/// The entries a range scan hands back for the lower bound `start` over a
/// table with contents `m`: exactly the entries at keys from `start` on,
/// listed in strictly ascending key order.
pub open spec fn scan_result(
    m: Map<Seq<char>, Seq<char>>,
    start: Seq<char>,
    es: Seq<(Seq<char>, Seq<char>)>,
) -> bool {
    &&& forall|j: int|
        0 <= j < es.len() ==> m.contains_key((#[trigger] es[j]).0) && m[es[j].0] == es[j].1
            && chars_le(start, es[j].0)
    &&& forall|k: Seq<char>|
        #[trigger] m.contains_key(k) && chars_le(start, k) ==> exists|j: int|
            0 <= j < es.len() && (#[trigger] es[j]).0 == k
    &&& forall|i: int, j: int|
        0 <= i < j < es.len() ==> chars_lt((#[trigger] es[i]).0, (#[trigger] es[j]).0)
}

} // verus!
