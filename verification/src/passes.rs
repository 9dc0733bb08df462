//! Decoding as a chain of replacements, one entity after the other, and the
//! proof that the chain gives what one pass from the left gives.

use vstd::prelude::*;
use crate::util::{decode_entities, leading_entity, starts_with, Entity};

verus! {

/// `s` with every escaped form of `e` replaced by its character: matches are
/// taken from the left and do not overlap.
pub open spec fn replace_entity(s: Seq<char>, e: Entity) -> Seq<char>
    decreases s.len(),
{
    if s.len() == 0 {
        Seq::empty()
    } else if starts_with(s, e.escape()) {
        seq![e.literal()] + replace_entity(s.skip(e.escape().len() as int), e)
    } else {
        seq![s[0]] + replace_entity(s.skip(1), e)
    }
}

/// The place of an entity in the order of replacement; `&amp;` comes last.
pub open spec fn rank(e: Entity) -> nat {
    match e {
        Entity::Lt => 0,
        Entity::Gt => 1,
        Entity::Quot => 2,
        Entity::Apos => 3,
        Entity::Eacute => 4,
        Entity::Amp => 5,
    }
}

/// The entity at a place in the order of replacement.
pub open spec fn ranked(k: nat) -> Entity {
    if k == 0 {
        Entity::Lt
    } else if k == 1 {
        Entity::Gt
    } else if k == 2 {
        Entity::Quot
    } else if k == 3 {
        Entity::Apos
    } else if k == 4 {
        Entity::Eacute
    } else {
        Entity::Amp
    }
}

/// The replacements in their order: `&lt;` first, `&amp;` last.
pub open spec fn replace_in_order(s: Seq<char>) -> Seq<char> {
    replace_entity(
        replace_entity(
            replace_entity(
                replace_entity(
                    replace_entity(replace_entity(s, ranked(0)), ranked(1)),
                    ranked(2),
                ),
                ranked(3),
            ),
            ranked(4),
        ),
        ranked(5),
    )
}

/// The entity that `s` begins with, if its rank is `k` or more.
pub open spec fn leading_ranked(s: Seq<char>, k: nat) -> Option<Entity> {
    match leading_entity(s) {
        Some(e) => if rank(e) >= k {
            Some(e)
        } else {
            None
        },
        None => None,
    }
}

/// One pass from the left that decodes only the entities of rank `k` or more.
pub open spec fn decode_ranked(s: Seq<char>, k: nat) -> Seq<char>
    decreases s.len(),
{
    if s.len() == 0 {
        Seq::empty()
    } else {
        match leading_ranked(s, k) {
            Some(e) => seq![e.literal()] + decode_ranked(s.skip(e.escape().len() as int), k),
            None => seq![s[0]] + decode_ranked(s.skip(1), k),
        }
    }
}

/// A character that is neither `&` nor the character of an entity.
pub open spec fn plain(c: char) -> bool {
    c != '&' && c != '<' && c != '>' && c != '"' && c != '\'' && c != '\u{e9}'
}

/// An escaped form is `&` followed by plain characters only.
pub proof fn lemma_escape_shape(e: Entity)
    ensures
        4 <= e.escape().len() <= 8,
        e.escape()[0] == '&',
        forall|i: int| 1 <= i < e.escape().len() ==> plain(#[trigger] e.escape()[i]),
{
}

/// At most one escaped form begins a text: the one that `leading_entity`
/// names.
pub proof fn lemma_leading_is_the_match(s: Seq<char>, e: Entity)
    ensures
        starts_with(s, e.escape()) <==> leading_entity(s) == Some(e),
{
    if starts_with(s, e.escape()) {
        assert(s[1] == e.escape()[1]);
    }
}

/// Decoding every rank is decoding.
pub proof fn lemma_decode_ranked_all(s: Seq<char>)
    ensures
        decode_ranked(s, 0) == decode_entities(s),
    decreases s.len(),
{
    if s.len() > 0 {
        match leading_entity(s) {
            Some(e) => {
                lemma_escape_shape(e);
                lemma_leading_is_the_match(s, e);
                lemma_decode_ranked_all(s.skip(e.escape().len() as int));
            },
            None => {
                lemma_decode_ranked_all(s.skip(1));
            },
        }
    }
}

/// Decoding no rank changes nothing.
pub proof fn lemma_decode_ranked_none(s: Seq<char>)
    ensures
        decode_ranked(s, 6) == s,
    decreases s.len(),
{
    if s.len() > 0 {
        lemma_decode_ranked_none(s.skip(1));
        assert(seq![s[0]] + s.skip(1) =~= s);
    } else {
        assert(s =~= Seq::<char>::empty());
    }
}

/// Where the escaped form of `e` begins at none of the first `n` places,
/// replacing copies the first `n` characters.
pub proof fn lemma_replace_copies(s: Seq<char>, e: Entity, n: nat)
    requires
        n <= s.len(),
        forall|i: int| 0 <= i < n ==> !starts_with(#[trigger] s.skip(i), e.escape()),
    ensures
        replace_entity(s, e) == s.take(n as int) + replace_entity(s.skip(n as int), e),
    decreases n,
{
    if n == 0 {
        assert(s.skip(0) =~= s);
        assert(s.take(0) + replace_entity(s, e) =~= replace_entity(s, e));
    } else {
        let rest = s.skip(1);
        assert(s.skip(0) =~= s);
        assert forall|i: int| 0 <= i < n - 1 implies !starts_with(
            #[trigger] rest.skip(i),
            e.escape(),
        ) by {
            assert(rest.skip(i) =~= s.skip(i + 1));
        }
        lemma_replace_copies(rest, e, (n - 1) as nat);
        assert(rest.skip(n - 1) =~= s.skip(n as int));
        assert(seq![s[0]] + (rest.take(n - 1) + replace_entity(s.skip(n as int), e)) =~= s.take(
            n as int,
        ) + replace_entity(s.skip(n as int), e));
    }
}

/// Plain characters at the front of a replaced text were copied: the text
/// itself begins with them.
pub proof fn lemma_plain_front_was_copied(s: Seq<char>, e: Entity, n: nat)
    requires
        n <= replace_entity(s, e).len(),
        forall|i: int| 0 <= i < n ==> plain(#[trigger] replace_entity(s, e)[i]),
    ensures
        n <= s.len(),
        forall|i: int| 0 <= i < n ==> #[trigger] s[i] == replace_entity(s, e)[i],
    decreases n,
{
    if n > 0 {
        let r = replace_entity(s, e);
        assert(plain(r[0]));
        assert(s.len() > 0);
        assert(!starts_with(s, e.escape()));
        let rest = s.skip(1);
        let rr = replace_entity(rest, e);
        assert(r == seq![s[0]] + rr);
        assert forall|i: int| 0 <= i < n - 1 implies plain(#[trigger] rr[i]) by {
            assert(rr[i] == r[i + 1]);
            assert(plain(r[i + 1]));
        }
        lemma_plain_front_was_copied(rest, e, (n - 1) as nat);
        assert forall|i: int| 0 <= i < n implies #[trigger] s[i] == r[i] by {
            if i > 0 {
                assert(rest[i - 1] == rr[i - 1]);
                assert(rr[i - 1] == r[i]);
            }
        }
    }
}

/// Replacing the entity of rank `k` and then decoding the ranks above it in
/// one pass is decoding the ranks from `k` on in one pass.
pub proof fn lemma_replace_then_decode(s: Seq<char>, k: nat)
    requires
        k < 6,
    ensures
        decode_ranked(replace_entity(s, ranked(k)), k + 1) == decode_ranked(s, k),
    decreases s.len(),
{
    let e = ranked(k);
    let r = replace_entity(s, e);
    lemma_escape_shape(e);
    lemma_leading_is_the_match(s, e);
    if s.len() == 0 {
    } else if starts_with(s, e.escape()) {
        let w = e.escape().len() as int;
        let tail = replace_entity(s.skip(w), e);
        assert(r == seq![e.literal()] + tail);
        assert(r[0] == e.literal());
        assert(leading_ranked(r, k + 1) is None) by {
            if k < 5 {
                assert(r[0] != '&');
                assert(leading_entity(r) is None);
            }
        }
        assert(r.skip(1) =~= tail);
        lemma_replace_then_decode(s.skip(w), k);
    } else {
        match leading_ranked(s, k) {
            Some(other) => {
                lemma_escape_shape(other);
                lemma_leading_is_the_match(s, other);
                let w = other.escape().len();
                assert forall|i: int| 0 <= i < w implies !starts_with(
                    #[trigger] s.skip(i),
                    e.escape(),
                ) by {
                    if i == 0 {
                        assert(s.skip(0) =~= s);
                    } else {
                        assert(s.skip(i)[0] == s[i]);
                        assert(s[i] == other.escape()[i]);
                        assert(plain(other.escape()[i]));
                    }
                }
                lemma_replace_copies(s, e, w);
                let tail = replace_entity(s.skip(w as int), e);
                assert(s.take(w as int) =~= other.escape());
                assert(r == other.escape() + tail);
                assert(starts_with(r, other.escape()));
                lemma_leading_is_the_match(r, other);
                assert(leading_ranked(r, k + 1) == Some(other));
                assert(r.skip(w as int) =~= tail);
                lemma_replace_then_decode(s.skip(w as int), k);
            },
            None => {
                let tail = replace_entity(s.skip(1), e);
                assert(r == seq![s[0]] + tail);
                assert(leading_ranked(r, k + 1) is None) by {
                    if leading_ranked(r, k + 1) is Some {
                        let found = leading_ranked(r, k + 1)->0;
                        lemma_escape_shape(found);
                        lemma_leading_is_the_match(r, found);
                        let w = found.escape().len();
                        assert forall|i: int| 0 <= i < w - 1 implies plain(#[trigger] tail[i]) by {
                            assert(tail[i] == r[i + 1]);
                            assert(r[i + 1] == found.escape()[i + 1]);
                            assert(plain(found.escape()[i + 1]));
                        }
                        lemma_plain_front_was_copied(s.skip(1), e, (w - 1) as nat);
                        assert forall|i: int| 0 <= i < w implies s[i] == found.escape()[i] by {
                            if i > 0 {
                                assert(s.skip(1)[i - 1] == tail[i - 1]);
                                assert(tail[i - 1] == r[i]);
                            } else {
                                assert(s[0] == r[0]);
                            }
                        }
                        assert(starts_with(s, found.escape()));
                        lemma_leading_is_the_match(s, found);
                        assert(false);
                    }
                }
                assert(r.skip(1) =~= tail);
                lemma_replace_then_decode(s.skip(1), k);
            },
        }
    }
}

/// Replacing entity by entity, with `&amp;` last, gives what one pass from the
/// left gives: the decoded text.
pub proof fn lemma_replace_in_order_decodes(s: Seq<char>)
    ensures
        replace_in_order(s) == decode_entities(s),
{
    let s1 = replace_entity(s, ranked(0));
    let s2 = replace_entity(s1, ranked(1));
    let s3 = replace_entity(s2, ranked(2));
    let s4 = replace_entity(s3, ranked(3));
    let s5 = replace_entity(s4, ranked(4));
    let s6 = replace_entity(s5, ranked(5));
    lemma_decode_ranked_all(s);
    lemma_replace_then_decode(s, 0);
    lemma_replace_then_decode(s1, 1);
    lemma_replace_then_decode(s2, 2);
    lemma_replace_then_decode(s3, 3);
    lemma_replace_then_decode(s4, 4);
    lemma_replace_then_decode(s5, 5);
    lemma_decode_ranked_none(s6);
}

} // verus!
