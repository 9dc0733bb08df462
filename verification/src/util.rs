//! Decoding of the HTML entities that question texts carry.

use vstd::prelude::*;
use crate::text::{chars_of, string_of};

verus! {

/// An escape that the decoder replaces by one character.
#[derive(Clone, Copy, Debug, PartialEq, Eq, Structural)]
pub enum Entity {
    Lt,
    Gt,
    Quot,
    Apos,
    Eacute,
    Amp,
}

impl Entity {
    /// The escaped form, from `&` to `;`.
    pub open spec fn escape(self) -> Seq<char> {
        match self {
            Entity::Lt => seq!['&', 'l', 't', ';'],
            Entity::Gt => seq!['&', 'g', 't', ';'],
            Entity::Quot => seq!['&', 'q', 'u', 'o', 't', ';'],
            Entity::Apos => seq!['&', '#', '0', '3', '9', ';'],
            Entity::Eacute => seq!['&', 'e', 'a', 'c', 'u', 't', 'e', ';'],
            Entity::Amp => seq!['&', 'a', 'm', 'p', ';'],
        }
    }

    /// The character that the escape stands for.
    pub open spec fn literal(self) -> char {
        match self {
            Entity::Lt => '<',
            Entity::Gt => '>',
            Entity::Quot => '"',
            Entity::Apos => '\'',
            Entity::Eacute => '\u{e9}',
            Entity::Amp => '&',
        }
    }

    /// The number of characters of the escaped form.
    pub fn width(self) -> (w: usize)
        ensures
            w == self.escape().len(),
            4 <= w <= 8,
    {
        match self {
            Entity::Lt => 4,
            Entity::Gt => 4,
            Entity::Quot => 6,
            Entity::Apos => 6,
            Entity::Eacute => 8,
            Entity::Amp => 5,
        }
    }

    /// The character that the escape stands for.
    pub fn symbol(self) -> (c: char)
        ensures
            c == self.literal(),
    {
        match self {
            Entity::Lt => '<',
            Entity::Gt => '>',
            Entity::Quot => '"',
            Entity::Apos => '\'',
            Entity::Eacute => '\u{e9}',
            Entity::Amp => '&',
        }
    }
}

/// `s` begins with the characters of `pat`.
pub open spec fn starts_with(s: Seq<char>, pat: Seq<char>) -> bool {
    &&& pat.len() <= s.len()
    &&& forall|k: int| 0 <= k < pat.len() ==> s[k] == pat[k]
}

/// The entity whose escaped form `s` begins with, if there is one. No escaped
/// form is the beginning of another, so at most one can match.
pub open spec fn leading_entity(s: Seq<char>) -> Option<Entity> {
    if starts_with(s, Entity::Lt.escape()) {
        Some(Entity::Lt)
    } else if starts_with(s, Entity::Gt.escape()) {
        Some(Entity::Gt)
    } else if starts_with(s, Entity::Quot.escape()) {
        Some(Entity::Quot)
    } else if starts_with(s, Entity::Apos.escape()) {
        Some(Entity::Apos)
    } else if starts_with(s, Entity::Eacute.escape()) {
        Some(Entity::Eacute)
    } else if starts_with(s, Entity::Amp.escape()) {
        Some(Entity::Amp)
    } else {
        None
    }
}

/// The decoded text: read from the left, every escaped form becomes its
/// character and every other character stays. What a replacement produced is
/// never read again, so the `&` that comes out of `&amp;` starts no new
/// escape. Replacing entity by entity, with `&amp;` last, gives the same
/// text: `lemma_replace_in_order_decodes` in `passes` proves it.
pub open spec fn decode_entities(s: Seq<char>) -> Seq<char>
    decreases s.len(),
{
    if s.len() == 0 {
        Seq::empty()
    } else {
        match leading_entity(s) {
            Some(e) => seq![e.literal()] + decode_entities(s.skip(e.escape().len() as int)),
            None => seq![s[0]] + decode_entities(s.skip(1)),
        }
    }
}

/// The escaped form of one character: its entity where it has one, else the
/// character itself.
pub open spec fn encode_char(c: char) -> Seq<char> {
    if c == Entity::Lt.literal() {
        Entity::Lt.escape()
    } else if c == Entity::Gt.literal() {
        Entity::Gt.escape()
    } else if c == Entity::Quot.literal() {
        Entity::Quot.escape()
    } else if c == Entity::Apos.literal() {
        Entity::Apos.escape()
    } else if c == Entity::Eacute.literal() {
        Entity::Eacute.escape()
    } else if c == Entity::Amp.literal() {
        Entity::Amp.escape()
    } else {
        seq![c]
    }
}

/// The escaped form of a text: each character escaped in turn.
pub open spec fn encode_entities(s: Seq<char>) -> Seq<char>
    decreases s.len(),
{
    if s.len() == 0 {
        Seq::empty()
    } else {
        encode_char(s[0]) + encode_entities(s.skip(1))
    }
}

/// Decoding undoes escaping: for every text, the decoded form of its escaped
/// form is the text itself. In particular an escaped `&` followed by the
/// rest of an entity is decoded once, not twice.
pub proof fn lemma_decode_undoes_encode(s: Seq<char>)
    ensures
        decode_entities(encode_entities(s)) == s,
    decreases s.len(),
{
    if s.len() > 0 {
        let c = s[0];
        let head = encode_char(c);
        let tail = encode_entities(s.skip(1));
        let t = head + tail;
        lemma_decode_undoes_encode(s.skip(1));
        assert(forall|k: int| 0 <= k < head.len() ==> t[k] == head[k]);
        assert(t.skip(head.len() as int) =~= tail);
        if head.len() == 1 {
            assert(t[0] == c);
            assert(leading_entity(t) is None);
        } else {
            assert(leading_entity(t) is Some);
            assert(leading_entity(t)->0.literal() == c);
            assert(leading_entity(t)->0.escape() == head);
        }
        assert(seq![c] + s.skip(1) =~= s);
    }
}

/// An escaped `&` is decoded once: whatever follows it is decoded on its own,
/// so the `&` that was produced begins no entity with it.
pub proof fn lemma_escaped_ampersand_decodes_once(rest: Seq<char>)
    ensures
        decode_entities(Entity::Amp.escape() + rest) == seq!['&'] + decode_entities(rest),
{
    let s = Entity::Amp.escape() + rest;
    assert(leading_entity(s) == Some(Entity::Amp));
    assert(s.skip(5) =~= rest);
}

/// No entity begins anywhere in `s`.
pub open spec fn entity_free(s: Seq<char>) -> bool {
    forall|i: int| 0 <= i < s.len() ==> leading_entity(#[trigger] s.skip(i)) is None
}

/// Decoding leaves a text without entities as it is; so decoding a decoded
/// text again changes nothing where the first pass left no entity behind.
pub proof fn lemma_decode_entity_free(s: Seq<char>)
    requires
        entity_free(s),
    ensures
        decode_entities(s) == s,
    decreases s.len(),
{
    if s.len() > 0 {
        let rest = s.skip(1);
        assert(s.skip(0) =~= s);
        assert forall|i: int| 0 <= i < rest.len() implies leading_entity(
            #[trigger] rest.skip(i),
        ) is None by {
            assert(rest.skip(i) =~= s.skip(i + 1));
        }
        lemma_decode_entity_free(rest);
        assert(seq![s[0]] + rest =~= s);
    }
}

/// The entity that begins at position `at` of `src`.
fn entity_at(src: &Vec<char>, at: usize) -> (found: Option<Entity>)
    requires
        at < src.len(),
    ensures
        found == leading_entity(src@.skip(at as int)),
{
    let ghost rest = src@.skip(at as int);
    assert(forall|k: int| 0 <= k < rest.len() ==> rest[k] == src@[at + k]);
    let room: usize = src.len() - at;
    if src[at] != '&' {
        return None;
    }
    if room >= 4 && src[at + 1] == 'l' && src[at + 2] == 't' && src[at + 3] == ';' {
        return Some(Entity::Lt);
    }
    if room >= 4 && src[at + 1] == 'g' && src[at + 2] == 't' && src[at + 3] == ';' {
        return Some(Entity::Gt);
    }
    if room >= 6 && src[at + 1] == 'q' && src[at + 2] == 'u' && src[at + 3] == 'o' && src[at + 4]
        == 't' && src[at + 5] == ';' {
        return Some(Entity::Quot);
    }
    if room >= 6 && src[at + 1] == '#' && src[at + 2] == '0' && src[at + 3] == '3' && src[at + 4]
        == '9' && src[at + 5] == ';' {
        return Some(Entity::Apos);
    }
    if room >= 8 && src[at + 1] == 'e' && src[at + 2] == 'a' && src[at + 3] == 'c' && src[at + 4]
        == 'u' && src[at + 5] == 't' && src[at + 6] == 'e' && src[at + 7] == ';' {
        return Some(Entity::Eacute);
    }
    if room >= 5 && src[at + 1] == 'a' && src[at + 2] == 'm' && src[at + 3] == 'p' && src[at + 4]
        == ';' {
        return Some(Entity::Amp);
    }
    None
}

/// Decodes the entities in `src`.
pub fn decode_chars(src: &Vec<char>) -> (out: Vec<char>)
    ensures
        out@ == decode_entities(src@),
{
    let n: usize = src.len();
    let mut out: Vec<char> = Vec::new();
    let mut i: usize = 0;
    proof {
        assert(src@.skip(0) =~= src@);
        assert(out@ + decode_entities(src@) =~= decode_entities(src@));
    }
    while i < n
        invariant
            n == src.len(),
            i <= n,
            out@ + decode_entities(src@.skip(i as int)) == decode_entities(src@),
        decreases n - i,
    {
        let ghost rest = src@.skip(i as int);
        let ghost before = out@;
        match entity_at(src, i) {
            Some(e) => {
                let w = e.width();
                out.push(e.symbol());
                proof {
                    assert(rest.skip(w as int) =~= src@.skip(i + w));
                    assert(out@ + decode_entities(src@.skip(i + w)) =~= before + decode_entities(
                        rest,
                    ));
                }
                i += w;
            },
            None => {
                out.push(src[i]);
                proof {
                    assert(rest.skip(1) =~= src@.skip(i + 1));
                    assert(out@ + decode_entities(src@.skip(i + 1)) =~= before + decode_entities(
                        rest,
                    ));
                }
                i += 1;
            },
        }
    }
    proof {
        assert(out@ + decode_entities(src@.skip(n as int)) =~= out@);
    }
    out
}

/// Replaces each HTML entity of the fixed table by its character.
pub fn escape_html(string: &str) -> (decoded: String)
    ensures
        decoded@ == decode_entities(string@),
{
    let src = chars_of(string);
    let out = decode_chars(&src);
    string_of(&out)
}

} // verus!
