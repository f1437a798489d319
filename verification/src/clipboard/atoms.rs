//! X11/ICCCM selection-atom semantics: which atoms carry content, which are pure
//! protocol machinery, and what encoding each one declares.

use crate::offer::{bytes_of, offer_get, offer_pairs, offer_types, types_of, Offer, Pair};
use crate::text::{contains_char, contains_text, same, texts};
use vstd::prelude::*;
use vstd::utf8::{encode_scalar, encode_utf8, valid_utf8};

verus! {

/// Legacy plain-text atoms a UTF-8 `text/plain` value can be derived from, in
/// descending order of how trustworthy their declared encoding is.
pub const PLAINTEXT: [&'static str; 3] = ["UTF8_STRING", "STRING", "TEXT"];

/// Whether `mime` is a legacy plain-text atom.
pub open spec fn plaintext(mime: Seq<char>) -> bool {
    mime == "UTF8_STRING"@ || mime == "STRING"@ || mime == "TEXT"@
}

/// Whether a failed read of this type likely lost real content: it is a MIME type or
/// one of the text atoms.
pub open spec fn content(mime: Seq<char>) -> bool {
    mime.contains('/') || plaintext(mime) || mime == "COMPOUND_TEXT"@
}

/// Whether this atom is selection machinery that no source ever serves as data.
pub open spec fn machinery(mime: Seq<char>) -> bool {
    ||| mime == "TARGETS"@
    ||| mime == "TIMESTAMP"@
    ||| mime == "MULTIPLE"@
    ||| mime == "SAVE_TARGETS"@
    ||| mime == "DELETE"@
    ||| mime == "INSERT_SELECTION"@
    ||| mime == "INSERT_PROPERTY"@
}

/// Whether a failed read of this advertised type likely lost real content (worth a
/// warning) rather than a pseudo-target that always errors on read.
pub fn is_content(mime: &str) -> (r: bool)
    ensures
        r == content(mime@),
{
    contains_char(mime, '/') || same(mime, PLAINTEXT[0]) || same(mime, PLAINTEXT[1]) || same(
        mime,
        PLAINTEXT[2],
    ) || same(mime, "COMPOUND_TEXT")
}

/// Whether this atom is pure selection machinery, never worth spending a read on.
pub fn is_machinery(mime: &str) -> (r: bool)
    ensures
        r == machinery(mime@),
{
    same(mime, "TARGETS") || same(mime, "TIMESTAMP") || same(mime, "MULTIPLE") || same(
        mime,
        "SAVE_TARGETS",
    ) || same(mime, "DELETE") || same(mime, "INSERT_SELECTION") || same(mime, "INSERT_PROPERTY")
}

/// The atom to derive a text from, of the types `names`.
pub open spec fn source_in(names: Seq<Seq<char>>) -> Option<Seq<char>> {
    if names.contains("UTF8_STRING"@) {
        Some("UTF8_STRING"@)
    } else if names.contains("STRING"@) {
        Some("STRING"@)
    } else if names.contains("TEXT"@) {
        Some("TEXT"@)
    } else {
        None
    }
}

/// The atom [`text_value`] would derive from, chosen from type *names* alone.
pub fn text_source(names: &[String]) -> (r: Option<&'static str>)
    ensures
        match r {
            Some(a) => source_in(texts(names@)) == Some(a@),
            None => source_in(texts(names@)) is None,
        },
{
    if contains_text(names, PLAINTEXT[0]) {
        Some(PLAINTEXT[0])
    } else if contains_text(names, PLAINTEXT[1]) {
        Some(PLAINTEXT[1])
    } else if contains_text(names, PLAINTEXT[2]) {
        Some(PLAINTEXT[2])
    } else {
        None
    }
}

/// ISO-8859-1 bytes as text: every byte is the character of the same value.
pub open spec fn latin1(bytes: Seq<u8>) -> Seq<char> {
    bytes.map_values(|b: u8| b as char)
}

/// The bytes of an atom as UTF-8, by the encoding that it declares: `STRING` is
/// ISO-8859-1; `TEXT` is, where it is not UTF-8.
pub open spec fn reencoded(atom: Seq<char>, bytes: Seq<u8>) -> Seq<u8> {
    if atom == "STRING"@ || (atom == "TEXT"@ && !valid_utf8(bytes)) {
        encode_utf8(latin1(bytes))
    } else {
        bytes
    }
}

/// `v` without the NULs at its end.
pub open spec fn without_nuls(v: Seq<u8>) -> Seq<u8>
    decreases v.len(),
{
    if v.len() > 0 && v.last() == 0 {
        without_nuls(v.drop_last())
    } else {
        v
    }
}

/// `v` without one line terminator (`\n` or `\r\n`) at its end.
pub open spec fn without_newline(v: Seq<u8>) -> Seq<u8> {
    if v.len() > 0 && v.last() == 10 {
        let w = v.drop_last();
        if w.len() > 0 && w.last() == 13 {
            w.drop_last()
        } else {
            w
        }
    } else {
        v
    }
}

/// A value derived from a legacy text atom, cleaned for use as text/plain.
pub open spec fn cleaned(v: Seq<u8>) -> Seq<u8> {
    without_newline(without_nuls(v))
}

/// The UTF-8 text value of one *named* legacy atom in an offer.
pub open spec fn value_in(pairs: Seq<Pair>, atom: Seq<char>) -> Option<Seq<u8>> {
    match bytes_of(pairs, atom) {
        Some(bytes) => Some(cleaned(reencoded(atom, bytes))),
        None => None,
    }
}

/// `std::str::from_utf8`: whether the bytes are valid UTF-8.
#[verifier::external_body]
fn is_utf8(bytes: &[u8]) -> (r: bool)
    ensures
        r == valid_utf8(bytes@),
{
    std::str::from_utf8(bytes).is_ok()
}

/// A copy of some bytes.
pub(crate) fn copy_bytes(bytes: &[u8]) -> (r: Vec<u8>)
    ensures
        r@ == bytes@,
{
    let mut r: Vec<u8> = Vec::new();
    r.extend_from_slice(bytes);
    proof {
        assert(r@ =~= bytes@);
    }
    r
}

proof fn lemma_encode_push(s: Seq<char>, c: char)
    ensures
        encode_utf8(s.push(c)) == encode_utf8(s) + encode_scalar(c as u32),
    decreases s.len(),
{
    let t = s.push(c);
    if s.len() == 0 {
        assert(t.drop_first() =~= Seq::<char>::empty());
        assert(encode_utf8(t.drop_first()) =~= Seq::<u8>::empty());
        assert(t[0] == c);
        assert(encode_utf8(t) =~= encode_scalar(c as u32));
        assert(encode_utf8(s) + encode_scalar(c as u32) =~= encode_scalar(c as u32));
    } else {
        lemma_encode_push(s.drop_first(), c);
        assert(t.drop_first() =~= s.drop_first().push(c));
        assert(t[0] == s[0]);
        assert(encode_utf8(t) =~= encode_utf8(s) + encode_scalar(c as u32));
    }
}

/// The UTF-8 encoding of a character below 256.
proof fn lemma_latin1_scalar(b: u8)
    ensures
        b < 0x80 ==> encode_scalar((b as char) as u32) == seq![b],
        b >= 0x80 ==> encode_scalar((b as char) as u32) == seq![
            (0xc0 | (b >> 6)) as u8,
            (0x80 | (b & 0x3f)) as u8,
        ],
{
    let s: u32 = (b as char) as u32;
    assert(s == b);
    if b < 0x80 {
        assert((s & 0x7f) as u8 == b) by (bit_vector)
            requires
                s == b,
                b < 0x80,
        ;
        assert(encode_scalar(s) =~= seq![b]);
    } else {
        assert((0xc0u8 | ((s >> 6) & 0x1f) as u8) == (0xc0u8 | (b >> 6))) by (bit_vector)
            requires
                s == b,
        ;
        assert((0x80u8 | (s & 0x3f) as u8) == (0x80u8 | (b & 0x3f))) by (bit_vector)
            requires
                s == b,
        ;
        assert(encode_scalar(s) =~= seq![
            (0xc0 | (b >> 6)) as u8,
            (0x80 | (b & 0x3f)) as u8,
        ]);
    }
}

/// Decodes ISO-8859-1 bytes to UTF-8.
pub fn latin1_to_utf8(bytes: &[u8]) -> (r: Vec<u8>)
    ensures
        r@ == encode_utf8(latin1(bytes@)),
{
    let mut r: Vec<u8> = Vec::new();
    let mut i: usize = 0;
    proof {
        assert(latin1(bytes@.take(0)) =~= Seq::<char>::empty());
        assert(r@ =~= encode_utf8(latin1(bytes@.take(0))));
    }
    while i < bytes.len()
        invariant
            i <= bytes@.len(),
            r@ == encode_utf8(latin1(bytes@.take(i as int))),
        decreases bytes@.len() - i,
    {
        let b: u8 = bytes[i];
        let ghost was = r@;
        proof {
            let c = b as char;
            assert(latin1(bytes@.take(i + 1)) =~= latin1(bytes@.take(i as int)).push(c));
            lemma_encode_push(latin1(bytes@.take(i as int)), c);
            lemma_latin1_scalar(b);
        }
        if b < 0x80 {
            r.push(b);
            proof {
                assert(r@ =~= was + seq![b]);
            }
        } else {
            r.push(0xc0 | (b >> 6));
            r.push(0x80 | (b & 0x3f));
            proof {
                assert(r@ =~= was + seq![
                    (0xc0 | (b >> 6)) as u8,
                    (0x80 | (b & 0x3f)) as u8,
                ]);
            }
        }
        i += 1;
    }
    proof {
        assert(bytes@.take(bytes@.len() as int) =~= bytes@);
    }
    r
}

/// Decodes an atom's bytes to UTF-8 according to the encoding it declares.
pub fn reencode(atom: &str, bytes: &[u8]) -> (r: Vec<u8>)
    ensures
        r@ == reencoded(atom@, bytes@),
{
    if same(atom, "STRING") || (same(atom, "TEXT") && !is_utf8(bytes)) {
        latin1_to_utf8(bytes)
    } else {
        copy_bytes(bytes)
    }
}

/// Cleans a value derived from a legacy text atom: drops the trailing NUL(s), then a
/// single trailing line terminator.
pub fn clean(v: Vec<u8>) -> (r: Vec<u8>)
    ensures
        r@ == cleaned(v@),
{
    let ghost all = v@;
    let mut v = v;
    while v.len() > 0 && v[v.len() - 1] == 0
        invariant
            without_nuls(all) == without_nuls(v@),
        decreases v@.len(),
    {
        let _ = v.pop();
    }
    if v.len() > 0 && v[v.len() - 1] == 10 {
        let _ = v.pop();
        if v.len() > 0 && v[v.len() - 1] == 13 {
            let _ = v.pop();
        }
    }
    v
}

/// The UTF-8 text value of one *named* legacy atom in `offer`.
pub fn value_of(offer: &Offer, atom: &str) -> (r: Option<Vec<u8>>)
    ensures
        match r {
            Some(v) => value_in(offer_pairs(*offer), atom@) == Some(v@),
            None => value_in(offer_pairs(*offer), atom@) is None,
        },
{
    match offer_get(offer, atom) {
        Some(bytes) => Some(clean(reencode(atom, bytes.as_slice()))),
        None => None,
    }
}

/// The UTF-8 text value derivable from `offer`'s highest-priority legacy plain-text
/// atom, together with the atom it came from, or `None` when the offer carries no such
/// atom.
pub fn text_value(offer: &Offer) -> (r: Option<(&'static str, Vec<u8>)>)
    ensures
        match r {
            Some((atom, v)) => {
                &&& source_in(types_of(offer_pairs(*offer))) == Some(atom@)
                &&& value_in(offer_pairs(*offer), atom@) == Some(v@)
            },
            None => source_in(types_of(offer_pairs(*offer))) is None,
        },
{
    let names = offer_types(offer);
    match text_source(&names) {
        None => None,
        Some(atom) => {
            proof {
                let pairs = offer_pairs(*offer);
                let i = choose|i: int| 0 <= i < types_of(pairs).len() && types_of(pairs)[i] == atom@;
                assert(types_of(pairs).contains(atom@));
                assert(pairs[i].0 == atom@);
                crate::offer::lemma_place_of(pairs, atom@);
            }
            match value_of(offer, atom) {
                Some(v) => Some((atom, v)),
                None => None,
            }
        },
    }
}

/// Machinery is never content.
pub proof fn machinery_is_never_content(mime: Seq<char>)
    requires
        machinery(mime),
    ensures
        !content(mime),
{
    reveal_strlit("TARGETS");
    reveal_strlit("TIMESTAMP");
    reveal_strlit("MULTIPLE");
    reveal_strlit("SAVE_TARGETS");
    reveal_strlit("DELETE");
    reveal_strlit("INSERT_SELECTION");
    reveal_strlit("INSERT_PROPERTY");
    reveal_strlit("UTF8_STRING");
    reveal_strlit("STRING");
    reveal_strlit("TEXT");
    reveal_strlit("COMPOUND_TEXT");
    if mime == "TARGETS"@ {
        assert(forall|i: int| 0 <= i < "TARGETS"@.len() ==> "TARGETS"@[i] != '/');
    } else if mime == "TIMESTAMP"@ {
        assert(forall|i: int| 0 <= i < "TIMESTAMP"@.len() ==> "TIMESTAMP"@[i] != '/');
    } else if mime == "MULTIPLE"@ {
        assert(forall|i: int| 0 <= i < "MULTIPLE"@.len() ==> "MULTIPLE"@[i] != '/');
    } else if mime == "SAVE_TARGETS"@ {
        assert(forall|i: int| 0 <= i < "SAVE_TARGETS"@.len() ==> "SAVE_TARGETS"@[i] != '/');
    } else if mime == "DELETE"@ {
        assert(forall|i: int| 0 <= i < "DELETE"@.len() ==> "DELETE"@[i] != '/');
        assert(mime[0] == 'D' && "STRING"@[0] == 'S');
    } else if mime == "INSERT_SELECTION"@ {
        assert(forall|i: int| 0 <= i < "INSERT_SELECTION"@.len() ==> "INSERT_SELECTION"@[i] != '/');
    } else if mime == "INSERT_PROPERTY"@ {
        assert(forall|i: int| 0 <= i < "INSERT_PROPERTY"@.len() ==> "INSERT_PROPERTY"@[i] != '/');
    }
}

/// Decoding ISO-8859-1 loses nothing, and gives valid UTF-8.
pub proof fn latin1_is_lossless(bytes: Seq<u8>)
    ensures
        valid_utf8(encode_utf8(latin1(bytes))),
        vstd::utf8::decode_utf8(encode_utf8(latin1(bytes))) == latin1(bytes),
        forall|i: int| 0 <= i < bytes.len() ==> (#[trigger] latin1(bytes)[i]) as u32 == bytes[i],
{
    vstd::utf8::encode_utf8_valid_utf8(latin1(bytes));
    vstd::utf8::encode_utf8_decode_utf8(latin1(bytes));
}

} // verus!
