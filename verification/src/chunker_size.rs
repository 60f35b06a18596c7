//! The size and the shape of the segments: none exceeds the maximum but for a single word
//! that is itself too long, and none is empty or begins or ends with white space.

use crate::chunker::chunks;
use crate::chunker::fields;
use crate::chunker::flushed;
use crate::chunker::fresh;
use crate::chunker::packed;
use crate::chunker::sentence_joint;
use crate::chunker::sentences;
use crate::chunker::units;
use crate::chunker::units_of;
use crate::chunker::with_sentence;
use crate::chunker::with_sentences;
use crate::chunker::with_words;
use crate::chunker::word_joint;
use crate::chunker::words;
use crate::chunker::Packing;
use crate::chunker::char_width;
use crate::chunker::size;
use crate::chunker::Separator;
use crate::text::is_space;
use crate::text::trim_end;
use crate::text::trim_start;
use crate::text::trimmed;
use vstd::prelude::*;

verus! {

/// The size of two texts in a row is the sum of their sizes.
pub proof fn lemma_size_add(a: Seq<char>, b: Seq<char>)
    ensures
        size(a + b) == size(a) + size(b),
    decreases b.len(),
{
    if b.len() == 0 {
        assert(a + b =~= a);
    } else {
        lemma_size_add(a, b.drop_last());
        assert((a + b).drop_last() =~= a + b.drop_last());
    }
}

/// A text takes at least one byte and at most four bytes for each character.
pub proof fn lemma_size_bound(s: Seq<char>)
    ensures
        s.len() <= size(s) <= 4 * s.len(),
    decreases s.len(),
{
    if s.len() > 0 {
        lemma_size_bound(s.drop_last());
    }
}

/// The width of a character is the length of its encoding in UTF-8.
pub proof fn lemma_char_width(c: char)
    ensures
        vstd::utf8::encode_scalar(c as u32).len() == char_width(c),
{
    let v = c as u32;
    if vstd::utf8::has_width_1_encoding(v) {
        assert(vstd::utf8::encode_scalar(v).len() == 1);
    } else if vstd::utf8::has_width_2_encoding(v) {
        assert(vstd::utf8::encode_scalar(v).len() == 2);
    } else if vstd::utf8::has_width_3_encoding(v) {
        assert(vstd::utf8::encode_scalar(v).len() == 3);
    } else {
        assert(vstd::utf8::encode_scalar(v).len() == 4);
    }
}

/// The size of a text is the length of its encoding in UTF-8.
pub proof fn lemma_size_is_byte_length(s: Seq<char>)
    ensures
        size(s) == vstd::utf8::encode_utf8(s).len(),
    decreases s.len(),
{
    if s.len() > 0 {
        let head = seq![s[0]];
        lemma_size_is_byte_length(s.drop_first());
        lemma_size_add(head, s.drop_first());
        assert(head + s.drop_first() =~= s);
        assert(head.drop_last() =~= Seq::<char>::empty());
        assert(size(head.drop_last()) == 0);
        assert(size(head) == char_width(s[0]));
        lemma_char_width(s[0]);
        assert(vstd::utf8::encode_utf8(s) == vstd::utf8::encode_scalar(s[0] as u32)
            + vstd::utf8::encode_utf8(s.drop_first()));
    }
}

/// Whether `s` is a single word: not empty, and without white space.
pub open spec fn is_word(s: Seq<char>) -> bool {
    s.len() > 0 && forall|i: int| 0 <= i < s.len() ==> !is_space(#[trigger] s[i])
}

/// Whether `s` neither is empty nor begins or ends with white space: whether it is a
/// segment in good shape.
pub open spec fn is_neat(s: Seq<char>) -> bool {
    s.len() > 0 && !is_space(s.first()) && !is_space(s.last())
}

/// Whether a segment has an admissible size: at most `max` bytes of UTF-8, or a single word.
pub open spec fn fits(s: Seq<char>, max: usize) -> bool {
    size(s) <= max || is_word(s)
}

/// Whether every segment of the packing is neat and of admissible size.
pub open spec fn sound(p: Packing, max: usize) -> bool {
    &&& forall|i: int| 0 <= i < p.done.len() ==> is_neat(#[trigger] p.done[i]) && fits(p.done[i], max)
    &&& p.buffer.len() > 0 ==> is_neat(p.buffer) && fits(p.buffer, max)
}

/// What `trim_start` leaves is a suffix that does not begin with white space.
proof fn lemma_trim_start(s: Seq<char>)
    ensures
        trim_start(s).len() <= s.len(),
        trim_start(s) == s.skip(s.len() - trim_start(s).len()),
        trim_start(s).len() > 0 ==> !is_space(trim_start(s).first()),
    decreases s.len(),
{
    if s.len() > 0 && is_space(s[0]) {
        lemma_trim_start(s.drop_first());
        let t = trim_start(s);
        assert(s.drop_first().skip(s.len() - 1 - t.len()) =~= s.skip(s.len() - t.len()));
    } else {
        assert(s.skip(0) =~= s);
    }
}

/// What `trim_end` leaves is a prefix that does not end with white space.
proof fn lemma_trim_end(s: Seq<char>)
    ensures
        trim_end(s).len() <= s.len(),
        trim_end(s) == s.take(trim_end(s).len() as int),
        trim_end(s).len() > 0 ==> !is_space(trim_end(s).last()),
    decreases s.len(),
{
    if s.len() > 0 && is_space(s.last()) {
        lemma_trim_end(s.drop_last());
        let t = trim_end(s);
        assert(s.drop_last().take(t.len() as int) =~= s.take(t.len() as int));
    } else {
        assert(s.take(s.len() as int) =~= s);
    }
}

/// What `trimmed` leaves is a part of `s` that is neat or empty.
pub proof fn lemma_trimmed(s: Seq<char>)
    ensures
        trimmed(s).len() > 0 ==> is_neat(trimmed(s)),
        exists|from: int|
            0 <= from && from + trimmed(s).len() <= s.len() && trimmed(s) == #[trigger] s.subrange(
                from,
                from + trimmed(s).len(),
            ),
{
    lemma_trim_start(s);
    let a = trim_start(s);
    lemma_trim_end(a);
    let t = trimmed(s);
    let from = s.len() - a.len();
    assert(t =~= s.subrange(from, from + t.len()));
    if t.len() > 0 {
        assert(t.first() == a.first());
    }
}

/// No piece of `fields` holds a separator, and there is at least one piece.
pub proof fn lemma_fields(text: Seq<char>, sep: Separator)
    ensures
        fields(text, sep).len() >= 1,
        forall|i: int, j: int|
            0 <= i < fields(text, sep).len() && 0 <= j < fields(text, sep)[i].len() ==> !sep.holds(
                #[trigger] fields(text, sep)[i][j],
            ),
    decreases text.len(),
{
    if text.len() > 0 {
        lemma_fields(text.drop_last(), sep);
    }
}

/// Every unit is neat, and is part of a piece.
proof fn lemma_units_of(pieces: Seq<Seq<char>>)
    ensures
        forall|i: int|
            0 <= i < units_of(pieces).len() ==> is_neat(#[trigger] units_of(pieces)[i]) && exists|
                k: int,
                from: int,
            |
                0 <= k < pieces.len() && 0 <= from && from + units_of(pieces)[i].len()
                    <= pieces[k].len() && units_of(pieces)[i] == #[trigger] pieces[k].subrange(
                    from,
                    from + units_of(pieces)[i].len(),
                ),
    decreases pieces.len(),
{
    if pieces.len() > 0 {
        let before = units_of(pieces.drop_last());
        lemma_units_of(pieces.drop_last());
        lemma_trimmed(pieces.last());
        let all = units_of(pieces);
        assert forall|i: int| 0 <= i < all.len() implies is_neat(#[trigger] all[i]) && exists|
            k: int,
            from: int,
        |
            0 <= k < pieces.len() && 0 <= from && from + all[i].len() <= pieces[k].len() && all[i]
                == #[trigger] pieces[k].subrange(from, from + all[i].len()) by {
            if i < before.len() {
                assert(all[i] == before[i]);
                let (k, from) = choose|k: int, from: int|
                    0 <= k < pieces.drop_last().len() && 0 <= from && from + before[i].len()
                        <= pieces.drop_last()[k].len() && before[i]
                        == #[trigger] pieces.drop_last()[k].subrange(from, from + before[i].len());
                assert(pieces[k] == pieces.drop_last()[k]);
                assert(all[i] == pieces[k].subrange(from, from + all[i].len()));
            } else {
                let t = trimmed(pieces.last());
                assert(all[i] == t);
                let from = choose|from: int|
                    0 <= from && from + t.len() <= pieces.last().len() && t
                        == #[trigger] pieces.last().subrange(from, from + t.len());
                assert(all[i] == pieces[pieces.len() - 1].subrange(from, from + all[i].len()));
            }
        }
    }
}

/// Every unit of a text is neat and holds no separator of the kind that the text was split
/// at.
pub proof fn lemma_units(text: Seq<char>, sep: Separator)
    ensures
        forall|i: int|
            0 <= i < units(text, sep).len() ==> is_neat(#[trigger] units(text, sep)[i]) && forall|
                j: int,
            |
                0 <= j < units(text, sep)[i].len() ==> !sep.holds(#[trigger] units(text, sep)[i][j]),
{
    let pieces = fields(text, sep);
    lemma_fields(text, sep);
    lemma_units_of(pieces);
    let all = units(text, sep);
    assert forall|i: int| 0 <= i < all.len() implies is_neat(#[trigger] all[i]) && forall|j: int|
        0 <= j < all[i].len() ==> !sep.holds(#[trigger] all[i][j]) by {
        let (k, from) = choose|k: int, from: int|
            0 <= k < pieces.len() && 0 <= from && from + all[i].len() <= pieces[k].len() && all[i]
                == #[trigger] pieces[k].subrange(from, from + all[i].len());
        assert forall|j: int| 0 <= j < all[i].len() implies !sep.holds(#[trigger] all[i][j]) by {
            assert(all[i][j] == pieces[k][from + j]);
        }
    }
}

/// Every word of a sentence is a single word.
pub proof fn lemma_words(unit: Seq<char>)
    ensures
        forall|i: int| 0 <= i < words(unit).len() ==> is_word(#[trigger] words(unit)[i]),
{
    lemma_units(unit, Separator::Blank);
    assert forall|i: int| 0 <= i < words(unit).len() implies is_word(#[trigger] words(unit)[i]) by {
        let w = words(unit)[i];
        assert(is_neat(w));
        assert forall|j: int| 0 <= j < w.len() implies !is_space(#[trigger] w[j]) by {
            assert(!Separator::Blank.holds(w[j]));
        }
    }
}

/// Completing a segment keeps a packing sound.
proof fn lemma_flushed_sound(p: Packing, max: usize)
    requires
        sound(p, max),
    ensures
        sound(flushed(p), max),
{
}

/// Packing a unit that is neat and of admissible size behind a joint that is as long as a
/// blank-free joint keeps a packing sound.
proof fn lemma_packed_sound(p: Packing, unit: Seq<char>, joint: Seq<char>, max: usize)
    requires
        sound(p, max),
        is_neat(unit),
        fits(unit, max),
    ensures
        sound(packed(p, unit, joint, max), max),
{
    let q = packed(p, unit, joint, max);
    if p.buffer.len() > 0 && size(p.buffer) + size(joint) + size(unit) <= max {
        lemma_size_add(p.buffer, joint);
        lemma_size_add(p.buffer + joint, unit);
        assert(q.buffer =~= p.buffer + joint + unit);
        assert(q.buffer.first() == p.buffer.first());
        assert(q.buffer.last() == unit.last());
    }
}

/// Packing single words keeps a packing sound.
proof fn lemma_with_words_sound(p: Packing, ws: Seq<Seq<char>>, max: usize)
    requires
        sound(p, max),
        forall|i: int| 0 <= i < ws.len() ==> is_word(#[trigger] ws[i]),
    ensures
        sound(with_words(p, ws, max), max),
    decreases ws.len(),
{
    if ws.len() > 0 {
        lemma_with_words_sound(p, ws.drop_last(), max);
        let w = ws.last();
        assert(is_word(w));
        assert(!is_space(w[0]));
        assert(!is_space(w[w.len() - 1]));
        lemma_packed_sound(with_words(p, ws.drop_last(), max), w, word_joint(), max);
    }
}

/// Packing a neat sentence keeps a packing sound.
proof fn lemma_with_sentence_sound(p: Packing, unit: Seq<char>, max: usize)
    requires
        sound(p, max),
        is_neat(unit),
    ensures
        sound(with_sentence(p, unit, max), max),
{
    if size(unit) > max {
        lemma_words(unit);
        lemma_flushed_sound(p, max);
        lemma_with_words_sound(flushed(p), words(unit), max);
        lemma_flushed_sound(with_words(flushed(p), words(unit), max), max);
    } else {
        lemma_packed_sound(p, unit, sentence_joint(), max);
    }
}

/// Packing neat sentences keeps a packing sound.
proof fn lemma_with_sentences_sound(p: Packing, us: Seq<Seq<char>>, max: usize)
    requires
        sound(p, max),
        forall|i: int| 0 <= i < us.len() ==> is_neat(#[trigger] us[i]),
    ensures
        sound(with_sentences(p, us, max), max),
    decreases us.len(),
{
    if us.len() > 0 {
        lemma_with_sentences_sound(p, us.drop_last(), max);
        assert(is_neat(us.last()));
        lemma_with_sentence_sound(with_sentences(p, us.drop_last(), max), us.last(), max);
    }
}

/// Every segment of a transcript has at most `max` bytes, unless it is a single word that
/// is itself longer; and every segment is neat: it is not empty and has no white space at
/// either end.
pub proof fn lemma_segments_fit(text: Seq<char>, max: usize)
    ensures
        forall|i: int|
            0 <= i < chunks(text, max).len() ==> fits(#[trigger] chunks(text, max)[i], max)
                && is_neat(chunks(text, max)[i]),
{
    lemma_units(text, Separator::Terminator);
    lemma_with_sentences_sound(fresh(), sentences(text), max);
    lemma_flushed_sound(with_sentences(fresh(), sentences(text), max), max);
}

/// An empty transcript has no segments.
pub proof fn lemma_empty_transcript(max: usize)
    ensures
        chunks(Seq::<char>::empty(), max) == Seq::<Seq<char>>::empty(),
{
    let text = Seq::<char>::empty();
    let pieces = fields(text, Separator::Terminator);
    assert(pieces =~= seq![Seq::<char>::empty()]);
    assert(pieces.drop_last() =~= Seq::<Seq<char>>::empty());
    assert(units_of(pieces.drop_last()) =~= Seq::<Seq<char>>::empty());
    assert(trimmed(pieces.last()) =~= Seq::<char>::empty());
    assert(units_of(pieces) =~= Seq::<Seq<char>>::empty());
    assert(chunks(text, max) =~= Seq::<Seq<char>>::empty());
}

} // verus!
