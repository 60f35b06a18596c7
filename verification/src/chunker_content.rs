//! What the segments hold: the content of the transcript, all of it, once, in order.

use crate::chunker::chunks;
use crate::chunker::fields;
use crate::chunker::flushed;
use crate::chunker::fresh;
use crate::chunker::is_terminator;
use crate::chunker::packed;
use crate::chunker::sentence_joint;
use crate::chunker::sentences;
use crate::chunker::units;
use crate::chunker::units_of;
use crate::chunker::with_sentence;
use crate::chunker::with_sentences;
use crate::chunker::with_words;
use crate::chunker::word_joint;
use crate::chunker::words;
use crate::chunker::Packing;
use crate::chunker::size;
use crate::chunker::Separator;
use crate::chunker_size::lemma_size_add;
use crate::text::is_space;
use crate::text::trim_end;
use crate::text::trim_start;
use crate::text::trimmed;
use crate::chunker_size::is_neat;
use crate::chunker_size::lemma_fields;
use crate::chunker_size::lemma_units;
use vstd::prelude::*;

verus! {

/// Whether the character belongs to the content of a text: it neither is white space nor ends a
/// sentence.
pub open spec fn is_content(b: char) -> bool {
    !is_space(b) && !is_terminator(b)
}

/// The content of a text: its characters without white space and without the ends of sentences.
pub open spec fn content(s: Seq<char>) -> Seq<char>
    decreases s.len(),
{
    if s.len() == 0 {
        Seq::empty()
    } else if is_content(s.last()) {
        content(s.drop_last()).push(s.last())
    } else {
        content(s.drop_last())
    }
}

/// The parts one after the other.
pub open spec fn concat(parts: Seq<Seq<char>>) -> Seq<char>
    decreases parts.len(),
{
    if parts.len() == 0 {
        Seq::empty()
    } else {
        concat(parts.drop_last()) + parts.last()
    }
}

/// All that a packing holds, in order.
pub open spec fn held(p: Packing) -> Seq<char> {
    concat(p.done) + p.buffer
}

/// The content of two texts in a row is the content of the one, then that of the other.
pub proof fn lemma_content_add(a: Seq<char>, b: Seq<char>)
    ensures
        content(a + b) == content(a) + content(b),
    decreases b.len(),
{
    if b.len() == 0 {
        assert(a + b =~= a);
        assert(content(a) + content(b) =~= content(a));
    } else {
        lemma_content_add(a, b.drop_last());
        assert((a + b).drop_last() =~= a + b.drop_last());
        assert((a + b).last() == b.last());
        assert(content(a + b) =~= content(a) + content(b));
    }
}

/// The content of a single character is the character itself, or nothing.
proof fn lemma_content_single(x: char)
    ensures
        content(seq![x]) == if is_content(x) {
            seq![x]
        } else {
            Seq::<char>::empty()
        },
{
    let s = seq![x];
    assert(s.drop_last() =~= Seq::<char>::empty());
    assert(content(s.drop_last()) =~= Seq::<char>::empty());
    assert(Seq::<char>::empty().push(x) =~= s);
}

/// A text without content characters has no content.
proof fn lemma_content_none(s: Seq<char>)
    requires
        forall|i: int| 0 <= i < s.len() ==> !is_content(#[trigger] s[i]),
    ensures
        content(s) == Seq::<char>::empty(),
    decreases s.len(),
{
    if s.len() > 0 {
        lemma_content_none(s.drop_last());
    }
}

/// A text that begins with a content character has content.
proof fn lemma_content_some(s: Seq<char>)
    requires
        s.len() > 0,
        is_content(s.first()),
    ensures
        content(s).len() > 0,
    decreases s.len(),
{
    if s.len() > 1 {
        lemma_content_some(s.drop_last());
    }
}

/// Trimming keeps the content.
proof fn lemma_content_trim(s: Seq<char>)
    ensures
        content(trimmed(s)) == content(s),
{
    lemma_content_trim_start(s);
    lemma_content_trim_end(trim_start(s));
}

proof fn lemma_content_trim_start(s: Seq<char>)
    ensures
        content(trim_start(s)) == content(s),
    decreases s.len(),
{
    if s.len() > 0 && is_space(s[0]) {
        lemma_content_trim_start(s.drop_first());
        let head = seq![s[0]];
        assert(head + s.drop_first() =~= s);
        lemma_content_add(head, s.drop_first());
        lemma_content_none(head);
        assert(Seq::<char>::empty() + content(s.drop_first()) =~= content(s.drop_first()));
    }
}

proof fn lemma_content_trim_end(s: Seq<char>)
    ensures
        content(trim_end(s)) == content(s),
    decreases s.len(),
{
    if s.len() > 0 && is_space(s.last()) {
        lemma_content_trim_end(s.drop_last());
    }
}

/// The parts of two lists in a row are the parts of the one, then those of the other.
proof fn lemma_concat_push(parts: Seq<Seq<char>>, last: Seq<char>)
    ensures
        concat(parts.push(last)) == concat(parts) + last,
{
    assert(parts.push(last).drop_last() =~= parts);
}

/// The pieces of a text hold its content: the separators between them have none.
proof fn lemma_content_fields(text: Seq<char>, sep: Separator)
    ensures
        content(concat(fields(text, sep))) == content(text),
    decreases text.len(),
{
    if text.len() == 0 {
        let pieces = fields(text, sep);
        assert(pieces.drop_last() =~= Seq::<Seq<char>>::empty());
        assert(concat(pieces.drop_last()) =~= Seq::<char>::empty());
        assert(concat(pieces) =~= Seq::<char>::empty());
    } else {
        let before = fields(text.drop_last(), sep);
        lemma_content_fields(text.drop_last(), sep);
        lemma_fields(text.drop_last(), sep);
        let x = text.last();
        if sep.holds(x) {
            lemma_concat_push(before, Seq::empty());
            assert(concat(before) + Seq::<char>::empty() =~= concat(before));
            assert(!is_content(x));
        } else {
            lemma_concat_push(before.drop_last(), before.last().push(x));
            assert(before.drop_last().push(before.last()) =~= before);
            lemma_concat_push(before.drop_last(), before.last());
            assert(concat(fields(text, sep)) =~= concat(before) + seq![x]);
            lemma_content_add(concat(before), seq![x]);
            lemma_content_single(x);
            if is_content(x) {
                assert(content(seq![x]) =~= seq![x]);
                assert(content(text) =~= content(text.drop_last()) + seq![x]);
            } else {
                assert(content(seq![x]) =~= Seq::<char>::empty());
                assert(content(text.drop_last()) + Seq::<char>::empty() =~= content(text));
            }
        }
    }
}

/// The units of pieces hold the content of the pieces.
proof fn lemma_content_units_of(pieces: Seq<Seq<char>>)
    ensures
        content(concat(units_of(pieces))) == content(concat(pieces)),
    decreases pieces.len(),
{
    if pieces.len() > 0 {
        let before = units_of(pieces.drop_last());
        lemma_content_units_of(pieces.drop_last());
        let t = trimmed(pieces.last());
        lemma_content_trim(pieces.last());
        lemma_content_add(concat(pieces.drop_last()), pieces.last());
        if t.len() == 0 {
            assert(content(t) =~= Seq::<char>::empty());
            assert(content(concat(pieces.drop_last())) + Seq::<char>::empty() =~= content(
                concat(pieces.drop_last()),
            ));
        } else {
            lemma_concat_push(before, t);
            lemma_content_add(concat(before), t);
        }
    }
}

/// The units of a text hold its content.
pub proof fn lemma_content_units(text: Seq<char>, sep: Separator)
    ensures
        content(concat(units(text, sep))) == content(text),
{
    lemma_content_units_of(fields(text, sep));
    lemma_content_fields(text, sep);
}

/// Completing a segment changes nothing of what a packing holds.
proof fn lemma_held_flushed(p: Packing)
    ensures
        held(flushed(p)) == held(p),
{
    if p.buffer.len() > 0 {
        lemma_concat_push(p.done, p.buffer);
        assert(concat(p.done) + p.buffer + Seq::<char>::empty() =~= concat(p.done) + p.buffer);
    }
}

/// Packing a unit behind a joint without content adds the content of the unit.
proof fn lemma_content_packed(p: Packing, unit: Seq<char>, joint: Seq<char>, max: usize)
    requires
        forall|i: int| 0 <= i < joint.len() ==> !is_content(#[trigger] joint[i]),
    ensures
        content(held(packed(p, unit, joint, max))) == content(held(p)) + content(unit),
{
    let q = packed(p, unit, joint, max);
    if p.buffer.len() == 0 {
        assert(held(p) =~= concat(p.done));
        lemma_content_add(concat(p.done), unit);
    } else if size(p.buffer) + size(joint) + size(unit) > max {
        lemma_concat_push(p.done, p.buffer);
        lemma_content_add(held(p), unit);
    } else {
        assert(held(q) =~= held(p) + joint + unit);
        lemma_content_add(held(p) + joint, unit);
        lemma_content_add(held(p), joint);
        lemma_content_none(joint);
        assert(content(held(p)) + Seq::<char>::empty() =~= content(held(p)));
    }
}

/// Packing words adds their content.
proof fn lemma_content_with_words(p: Packing, ws: Seq<Seq<char>>, max: usize)
    ensures
        content(held(with_words(p, ws, max))) == content(held(p)) + content(concat(ws)),
    decreases ws.len(),
{
    if ws.len() == 0 {
        assert(content(held(p)) + Seq::<char>::empty() =~= content(held(p)));
    } else {
        lemma_content_with_words(p, ws.drop_last(), max);
        lemma_content_packed(with_words(p, ws.drop_last(), max), ws.last(), word_joint(), max);
        lemma_content_add(concat(ws.drop_last()), ws.last());
        assert(content(held(p)) + content(concat(ws.drop_last())) + content(ws.last()) =~= content(
            held(p),
        ) + (content(concat(ws.drop_last())) + content(ws.last())));
    }
}

/// Packing a sentence adds its content.
proof fn lemma_content_with_sentence(p: Packing, unit: Seq<char>, max: usize)
    ensures
        content(held(with_sentence(p, unit, max))) == content(held(p)) + content(unit),
{
    if size(unit) > max {
        lemma_held_flushed(p);
        lemma_content_with_words(flushed(p), words(unit), max);
        lemma_held_flushed(with_words(flushed(p), words(unit), max));
        lemma_content_units(unit, Separator::Blank);
    } else {
        lemma_content_packed(p, unit, sentence_joint(), max);
    }
}

/// Packing sentences adds their content.
proof fn lemma_content_with_sentences(p: Packing, us: Seq<Seq<char>>, max: usize)
    ensures
        content(held(with_sentences(p, us, max))) == content(held(p)) + content(concat(us)),
    decreases us.len(),
{
    if us.len() == 0 {
        assert(content(held(p)) + Seq::<char>::empty() =~= content(held(p)));
    } else {
        lemma_content_with_sentences(p, us.drop_last(), max);
        lemma_content_with_sentence(with_sentences(p, us.drop_last(), max), us.last(), max);
        lemma_content_add(concat(us.drop_last()), us.last());
        assert(content(held(p)) + content(concat(us.drop_last())) + content(us.last()) =~= content(
            held(p),
        ) + (content(concat(us.drop_last())) + content(us.last())));
    }
}

/// The segments of a transcript, one after the other, hold the content of the transcript:
/// every character of it that neither is white space nor ends a sentence, once, in order, and no
/// other such character.
pub proof fn lemma_content_kept(text: Seq<char>, max: usize)
    ensures
        content(concat(chunks(text, max))) == content(text),
{
    let p = with_sentences(fresh(), sentences(text), max);
    lemma_content_with_sentences(fresh(), sentences(text), max);
    lemma_held_flushed(p);
    lemma_content_units(text, Separator::Terminator);
    assert(held(fresh()) =~= Seq::<char>::empty());
    assert(Seq::<char>::empty() + content(concat(sentences(text))) =~= content(
        concat(sentences(text)),
    ));
    assert(held(flushed(p)) =~= concat(chunks(text, max)));
}

/// A list of parts whose last part has content has content.
proof fn lemma_content_of_last(parts: Seq<Seq<char>>)
    requires
        parts.len() > 0,
        content(parts.last()).len() > 0,
    ensures
        content(concat(parts)).len() > 0,
{
    lemma_content_add(concat(parts.drop_last()), parts.last());
}

/// A transcript has segments exactly when it has content: a transcript that is empty, or
/// holds only white space and ends of sentences, has none.
pub proof fn lemma_segments_iff_content(text: Seq<char>, max: usize)
    ensures
        chunks(text, max).len() > 0 <==> content(text).len() > 0,
{
    let us = sentences(text);
    lemma_content_kept(text, max);
    lemma_content_units(text, Separator::Terminator);
    if us.len() > 0 {
        lemma_units(text, Separator::Terminator);
        let last = us.last();
        assert(is_neat(last));
        assert(!Separator::Terminator.holds(last[0]));
        lemma_content_some(last);
        lemma_content_of_last(us);
        if chunks(text, max).len() == 0 {
            assert(concat(chunks(text, max)) =~= Seq::<char>::empty());
        }
    } else {
        assert(concat(us) =~= Seq::<char>::empty());
        assert(chunks(text, max) =~= Seq::<Seq<char>>::empty());
    }
}

/// The sentences joined by full stop and space, as one segment holds them.
pub open spec fn sentence_join(us: Seq<Seq<char>>) -> Seq<char>
    decreases us.len(),
{
    if us.len() == 0 {
        Seq::empty()
    } else if us.len() == 1 {
        us[0]
    } else {
        sentence_join(us.drop_last()) + sentence_joint() + us.last()
    }
}

/// Sentences that fit into one segment together are packed into one.
proof fn lemma_packed_together(us: Seq<Seq<char>>, max: usize)
    requires
        us.len() > 0,
        forall|i: int| 0 <= i < us.len() ==> (#[trigger] us[i]).len() > 0,
        size(sentence_join(us)) <= max,
    ensures
        with_sentences(fresh(), us, max) == (Packing {
            done: Seq::empty(),
            buffer: sentence_join(us),
        }),
    decreases us.len(),
{
    let before = us.drop_last();
    assert(us.last().len() > 0);
    if us.len() == 1 {
        assert(before =~= Seq::<Seq<char>>::empty());
        assert(with_sentences(fresh(), before, max) == fresh());
    } else {
        assert forall|i: int| 0 <= i < before.len() implies (#[trigger] before[i]).len() > 0 by {
            assert(before[i] == us[i]);
        }
        lemma_size_add(sentence_join(before), sentence_joint());
        lemma_size_add(sentence_join(before) + sentence_joint(), us.last());
        lemma_join_len(before);
        lemma_packed_together(before, max);
    }
}

/// Joined sentences are at least as long as the last of them, and not empty where none of
/// them is.
proof fn lemma_join_len(us: Seq<Seq<char>>)
    requires
        us.len() > 0,
        forall|i: int| 0 <= i < us.len() ==> (#[trigger] us[i]).len() > 0,
    ensures
        size(sentence_join(us)) >= size(us.last()),
        sentence_join(us).len() > 0,
{
    assert(us.last().len() > 0);
    if us.len() > 1 {
        lemma_size_add(sentence_join(us.drop_last()), sentence_joint());
        lemma_size_add(sentence_join(us.drop_last()) + sentence_joint(), us.last());
    }
}

/// A transcript whose sentences, joined by full stop and space, have at most `max` bytes
/// is one segment: the joined sentences.
pub proof fn lemma_one_segment(text: Seq<char>, max: usize)
    requires
        sentences(text).len() > 0,
        size(sentence_join(sentences(text))) <= max,
    ensures
        chunks(text, max) == seq![sentence_join(sentences(text))],
{
    let us = sentences(text);
    lemma_units(text, Separator::Terminator);
    assert forall|i: int| 0 <= i < us.len() implies (#[trigger] us[i]).len() > 0 by {
        assert(is_neat(us[i]));
    }
    lemma_packed_together(us, max);
    lemma_join_len(us);
    assert(chunks(text, max) =~= seq![sentence_join(us)]);
}

} // verus!
