//! Splitting a transcript into segments of bounded size.
//!
//! The transcript is cut into sentences at `.`, `!` and `?`. Sentences are packed into
//! segments one after the other, joined by a full stop and a space, as long as the segment
//! stays within the maximum. A sentence that is itself too long is packed word by word,
//! the words joined by single spaces.
//!
//! Sizes are counted in bytes of UTF-8. White space is what Unicode calls white space.

use crate::chunker_content::concat;
use crate::chunker_content::content;
use crate::chunker_content::lemma_content_kept;
use crate::chunker_content::lemma_segments_iff_content;
use crate::chunker_size::fits;
use crate::chunker_size::is_neat;
use crate::chunker_size::lemma_segments_fit;
use crate::chunker_size::lemma_size_add;
use crate::chunker_size::is_word;
use crate::chunker_size::lemma_size_is_byte_length;
use crate::text::chars_of;
use crate::text::is_space;
use crate::text::is_whitespace;
use crate::text::lemma_trim_end_take;
use crate::text::lemma_trim_start_skip;
use crate::text::text_of;
use crate::text::trim_start;
use crate::text::trimmed;
use crate::text::views;
use vstd::prelude::*;

verus! {

/// The maximum size of a segment, unless the caller chooses another: segments stay below
/// 4900 bytes.
pub const DEFAULT_MAX_BYTES: usize = 4899;

/// What separates the units that a text is split into.
#[derive(Clone, Copy, Debug, PartialEq, Eq, Structural)]
pub enum Separator {
    /// The end of a sentence: `.`, `!` or `?`.
    Terminator,
    /// White space.
    Blank,
}

/// Whether the character ends a sentence.
pub open spec fn is_terminator(c: char) -> bool {
    c == '.' || c == '!' || c == '?'
}

impl Separator {
    /// Whether the character is a separator of this kind.
    pub open spec fn holds(self, c: char) -> bool {
        match self {
            Separator::Terminator => is_terminator(c),
            Separator::Blank => is_space(c),
        }
    }

    /// Whether the character is a separator of this kind.
    pub fn matches(self, c: char) -> (r: bool)
        ensures
            r == self.holds(c),
    {
        match self {
            Separator::Terminator => c == '.' || c == '!' || c == '?',
            Separator::Blank => is_whitespace(c),
        }
    }
}

/// How many bytes the character takes in UTF-8.
pub open spec fn char_width(c: char) -> nat {
    if c <= '\u{7f}' {
        1
    } else if c <= '\u{7ff}' {
        2
    } else if c <= '\u{ffff}' {
        3
    } else {
        4
    }
}

/// How many bytes the text takes in UTF-8.
pub open spec fn size(s: Seq<char>) -> nat
    decreases s.len(),
{
    if s.len() == 0 {
        0
    } else {
        size(s.drop_last()) + char_width(s.last())
    }
}

/// The pieces of `text` between its separators, empty pieces included.
pub open spec fn fields(text: Seq<char>, sep: Separator) -> Seq<Seq<char>>
    decreases text.len(),
{
    if text.len() == 0 {
        seq![Seq::<char>::empty()]
    } else {
        let before = fields(text.drop_last(), sep);
        if sep.holds(text.last()) {
            before.push(Seq::empty())
        } else {
            before.drop_last().push(before.last().push(text.last()))
        }
    }
}

/// `units` after the piece `piece`: the piece is trimmed, and kept unless nothing is left
/// of it.
pub open spec fn with_piece(units: Seq<Seq<char>>, piece: Seq<char>) -> Seq<Seq<char>> {
    if trimmed(piece).len() == 0 {
        units
    } else {
        units.push(trimmed(piece))
    }
}

/// The pieces trimmed, without those of which nothing is left.
pub open spec fn units_of(pieces: Seq<Seq<char>>) -> Seq<Seq<char>>
    decreases pieces.len(),
{
    if pieces.len() == 0 {
        Seq::empty()
    } else {
        with_piece(units_of(pieces.drop_last()), pieces.last())
    }
}

/// The units of `text`: what lies between its separators, trimmed, where that is not empty.
pub open spec fn units(text: Seq<char>, sep: Separator) -> Seq<Seq<char>> {
    units_of(fields(text, sep))
}

/// The sentences of a transcript.
pub open spec fn sentences(text: Seq<char>) -> Seq<Seq<char>> {
    units(text, Separator::Terminator)
}

/// The words of a sentence.
pub open spec fn words(text: Seq<char>) -> Seq<Seq<char>> {
    units(text, Separator::Blank)
}

/// The state of packing: the segments that are complete, and the segment that is being
/// filled.
pub struct Packing {
    pub done: Seq<Seq<char>>,
    pub buffer: Seq<char>,
}

/// A packing that holds nothing.
pub open spec fn fresh() -> Packing {
    Packing { done: Seq::empty(), buffer: Seq::empty() }
}

/// Completes the segment that is being filled, unless it is empty.
pub open spec fn flushed(p: Packing) -> Packing {
    if p.buffer.len() > 0 {
        Packing { done: p.done.push(p.buffer), buffer: Seq::empty() }
    } else {
        p
    }
}

/// Adds `unit` to the segment that is being filled, behind `joint`; where the segment would
/// then take more than `max` bytes, it is completed first and the unit begins the next one.
pub open spec fn packed(p: Packing, unit: Seq<char>, joint: Seq<char>, max: usize) -> Packing {
    if p.buffer.len() == 0 {
        Packing { done: p.done, buffer: unit }
    } else if size(p.buffer) + size(joint) + size(unit) > max {
        Packing { done: p.done.push(p.buffer), buffer: unit }
    } else {
        Packing { done: p.done, buffer: p.buffer + joint + unit }
    }
}

/// What joins two words of a segment: a space.
pub open spec fn word_joint() -> Seq<char> {
    seq![' ']
}

/// What joins two sentences of a segment: a full stop and a space.
pub open spec fn sentence_joint() -> Seq<char> {
    seq!['.', ' ']
}

/// Adds the words `ws`, one after the other.
pub open spec fn with_words(p: Packing, ws: Seq<Seq<char>>, max: usize) -> Packing
    decreases ws.len(),
{
    if ws.len() == 0 {
        p
    } else {
        packed(with_words(p, ws.drop_last(), max), ws.last(), word_joint(), max)
    }
}

/// Adds the sentence `unit`. A sentence that takes more than `max` bytes gets segments of
/// its own, packed word by word.
pub open spec fn with_sentence(p: Packing, unit: Seq<char>, max: usize) -> Packing {
    if size(unit) > max {
        flushed(with_words(flushed(p), words(unit), max))
    } else {
        packed(p, unit, sentence_joint(), max)
    }
}

/// Adds the sentences `us`, one after the other.
pub open spec fn with_sentences(p: Packing, us: Seq<Seq<char>>, max: usize) -> Packing
    decreases us.len(),
{
    if us.len() == 0 {
        p
    } else {
        with_sentence(with_sentences(p, us.drop_last(), max), us.last(), max)
    }
}

/// The segments of a transcript for the maximum size `max`.
pub open spec fn chunks(text: Seq<char>, max: usize) -> Seq<Seq<char>> {
    flushed(with_sentences(fresh(), sentences(text), max)).done
}

/// The character sequences that a list of character vectors holds.
pub open spec fn char_views(list: Seq<Vec<char>>) -> Seq<Seq<char>> {
    list.map_values(|v: Vec<char>| v@)
}

/// How many bytes the character takes in UTF-8.
pub fn width(c: char) -> (w: u128)
    ensures
        w == char_width(c),
        1 <= w <= 4,
{
    if c <= '\u{7f}' {
        1
    } else if c <= '\u{7ff}' {
        2
    } else if c <= '\u{ffff}' {
        3
    } else {
        4
    }
}

/// How many bytes the characters take in UTF-8.
pub fn measure(chars: &[char]) -> (n: u128)
    ensures
        n == size(chars@),
        n <= 4 * chars@.len(),
        n <= 4 * usize::MAX,
{
    let mut n: u128 = 0;
    let mut i: usize = 0;
    assert(chars@.take(0) =~= Seq::<char>::empty());
    while i < chars.len()
        invariant
            i <= chars.len(),
            n == size(chars@.take(i as int)),
            n <= 4 * i,
        decreases chars.len() - i,
    {
        assert(chars@.take(i + 1).drop_last() =~= chars@.take(i as int));
        n = n + width(chars[i]);
        i += 1;
    }
    assert(chars@.take(chars.len() as int) =~= chars@);
    n
}

/// Appends the characters of `src` to `out`.
pub fn append_chars(out: &mut Vec<char>, src: &[char])
    ensures
        final(out)@ == old(out)@ + src@,
{
    let ghost before = out@;
    let mut i: usize = 0;
    while i < src.len()
        invariant
            i <= src.len(),
            out@ == before + src@.take(i as int),
        decreases src.len() - i,
    {
        out.push(src[i]);
        assert(src@.take(i + 1) =~= src@.take(i as int).push(src@[i as int]));
        assert(out@ =~= before + src@.take(i + 1));
        i += 1;
    }
    assert(src@.take(src.len() as int) =~= src@);
}

/// Appends the piece of `text` from `from` up to `to` to `units`, trimmed, unless nothing
/// is left of it.
fn push_piece(units: &mut Vec<Vec<char>>, text: &[char], from: usize, to: usize)
    requires
        from <= to <= text.len(),
    ensures
        char_views(final(units)@) == with_piece(
            char_views(old(units)@),
            text@.subrange(from as int, to as int),
        ),
{
    let ghost piece = text@.subrange(from as int, to as int);
    let mut start: usize = from;
    while start < to && is_whitespace(text[start])
        invariant
            from <= start <= to <= text.len(),
            forall|j: int| from <= j < start ==> is_space(#[trigger] text@[j]),
        decreases to - start,
    {
        start += 1;
    }
    let mut end: usize = to;
    while end > start && is_whitespace(text[end - 1])
        invariant
            start <= end <= to <= text.len(),
            forall|j: int| end <= j < to ==> is_space(#[trigger] text@[j]),
        decreases end,
    {
        end -= 1;
    }
    proof {
        let rest = piece.skip(start - from);
        assert forall|j: int| 0 <= j < start - from implies is_space(#[trigger] piece[j]) by {
            assert(piece[j] == text@[from + j]);
        }
        lemma_trim_start_skip(piece, start - from);
        assert(trim_start(piece) == rest);
        assert forall|j: int| end - start <= j < rest.len() implies is_space(#[trigger] rest[j]) by {
            assert(rest[j] == text@[start + j]);
        }
        lemma_trim_end_take(rest, end - start);
        assert(rest.take(end - start) =~= text@.subrange(start as int, end as int));
        assert(trimmed(piece) == text@.subrange(start as int, end as int));
    }
    if start < end {
        let mut unit: Vec<char> = Vec::new();
        append_chars(&mut unit, vstd::slice::slice_subrange(text, start, end));
        let ghost before = char_views(units@);
        units.push(unit);
        assert(char_views(units@) =~= before.push(trimmed(piece)));
    }
}

/// Splits `text` at the separators of the kind `sep` into its units: what lies between the
/// separators, without white space at either end, where that is not empty.
pub fn split(text: &[char], sep: Separator) -> (r: Vec<Vec<char>>)
    ensures
        char_views(r@) == units(text@, sep),
{
    let mut found: Vec<Vec<char>> = Vec::new();
    let mut start: usize = 0;
    let mut i: usize = 0;
    let ghost mut complete: Seq<Seq<char>> = Seq::empty();
    assert(text@.take(0) =~= Seq::<char>::empty());
    assert(fields(text@.take(0), sep) =~= complete.push(text@.subrange(0, 0)));
    assert(char_views(found@) =~= units_of(complete));
    while i < text.len()
        invariant
            start <= i <= text.len(),
            fields(text@.take(i as int), sep) == complete.push(
                text@.subrange(start as int, i as int),
            ),
            char_views(found@) == units_of(complete),
        decreases text.len() - i,
    {
        let ghost piece = text@.subrange(start as int, i as int);
        assert(text@.take(i + 1).drop_last() =~= text@.take(i as int));
        assert(complete.push(piece).drop_last() =~= complete);
        if sep.matches(text[i]) {
            push_piece(&mut found, text, start, i);
            proof {
                complete = complete.push(piece);
            }
            start = i + 1;
            assert(text@.subrange(start as int, start as int) =~= Seq::<char>::empty());
        } else {
            assert(piece.push(text@[i as int]) =~= text@.subrange(start as int, i + 1));
        }
        i += 1;
    }
    assert(text@.take(text.len() as int) =~= text@);
    let ghost last = text@.subrange(start as int, text.len() as int);
    assert(complete.push(last).drop_last() =~= complete);
    push_piece(&mut found, text, start, text.len());
    found
}

/// Packs units into segments.
struct Packer {
    done: Vec<Vec<char>>,
    buffer: Vec<char>,
    /// The size of `buffer`.
    bytes: u128,
}

impl Packer {
    /// What the packer holds.
    spec fn state(&self) -> Packing {
        Packing { done: char_views(self.done@), buffer: self.buffer@ }
    }

    /// Whether the packer knows the size of the segment that it fills.
    spec fn wf(&self) -> bool {
        self.bytes == size(self.buffer@) && self.bytes <= 4 * self.buffer@.len()
    }

    /// A packer that holds nothing.
    fn new() -> (r: Packer)
        ensures
            r.state() == fresh(),
            r.wf(),
    {
        let r = Packer { done: Vec::new(), buffer: Vec::new(), bytes: 0 };
        assert(char_views(r.done@) =~= Seq::<Seq<char>>::empty());
        r
    }

    /// Completes the segment that is being filled, unless it is empty.
    fn flush(&mut self)
        requires
            old(self).wf(),
        ensures
            final(self).state() == flushed(old(self).state()),
            final(self).wf(),
    {
        if self.buffer.len() > 0 {
            let ghost before = char_views(self.done@);
            let ghost full = self.buffer@;
            let mut segment: Vec<char> = Vec::new();
            std::mem::swap(&mut self.buffer, &mut segment);
            self.done.push(segment);
            self.bytes = 0;
            assert(char_views(self.done@) =~= before.push(full));
        }
    }

    /// Begins the next segment with `unit`, which takes `bytes` bytes.
    fn begin(&mut self, unit: &[char], bytes: u128)
        requires
            old(self).buffer@.len() == 0,
            bytes == size(unit@),
            bytes <= 4 * unit@.len(),
        ensures
            final(self).state() == (Packing { done: old(self).state().done, buffer: unit@ }),
            final(self).wf(),
    {
        append_chars(&mut self.buffer, unit);
        self.bytes = bytes;
        assert(self.buffer@ =~= unit@);
    }

    /// Adds `unit` to the segment that is being filled, behind `joint`; where the segment
    /// would then take more than `max` bytes, it is completed first and the unit begins
    /// the next one.
    fn pack(&mut self, unit: &[char], joint: &[char], max: usize)
        requires
            old(self).wf(),
        ensures
            final(self).state() == packed(old(self).state(), unit@, joint@, max),
            final(self).wf(),
    {
        let unit_bytes = measure(unit);
        if self.buffer.len() == 0 {
            self.begin(unit, unit_bytes);
        } else {
            let joint_bytes = measure(joint);
            assert(self.bytes <= 4 * usize::MAX);
            if self.bytes + joint_bytes + unit_bytes > max as u128 {
                self.flush();
                self.begin(unit, unit_bytes);
            } else {
                proof {
                    lemma_size_add(self.buffer@, joint@);
                    lemma_size_add(self.buffer@ + joint@, unit@);
                }
                append_chars(&mut self.buffer, joint);
                append_chars(&mut self.buffer, unit);
                self.bytes = self.bytes + joint_bytes + unit_bytes;
            }
        }
    }

    /// Adds the words `ws`, one after the other, joined by single spaces.
    fn add_words(&mut self, ws: &Vec<Vec<char>>, max: usize)
        requires
            old(self).wf(),
        ensures
            final(self).state() == with_words(old(self).state(), char_views(ws@), max),
            final(self).wf(),
    {
        let joint: [char; 1] = [' '];
        assert(joint@ =~= word_joint());
        let ghost all = char_views(ws@);
        let mut i: usize = 0;
        assert(all.take(0) =~= Seq::<Seq<char>>::empty());
        while i < ws.len()
            invariant
                i <= ws.len(),
                all == char_views(ws@),
                joint@ == word_joint(),
                self.wf(),
                self.state() == with_words(old(self).state(), all.take(i as int), max),
            decreases ws.len() - i,
        {
            assert(all.take(i + 1).drop_last() =~= all.take(i as int));
            assert(all.take(i + 1).last() == ws@[i as int]@);
            self.pack(ws[i].as_slice(), joint.as_slice(), max);
            i += 1;
        }
        assert(all.take(ws.len() as int) =~= all);
    }

    /// Adds a sentence. A sentence that takes more than `max` bytes gets segments of its
    /// own, packed word by word.
    fn add_sentence(&mut self, unit: &[char], max: usize)
        requires
            old(self).wf(),
        ensures
            final(self).state() == with_sentence(old(self).state(), unit@, max),
            final(self).wf(),
    {
        if measure(unit) > max as u128 {
            let ws = split(unit, Separator::Blank);
            self.flush();
            self.add_words(&ws, max);
            self.flush();
        } else {
            let joint: [char; 2] = ['.', ' '];
            assert(joint@ =~= sentence_joint());
            self.pack(unit, joint.as_slice(), max);
        }
    }

    /// Completes the last segment and hands out all segments.
    fn finish(self) -> (r: Vec<Vec<char>>)
        requires
            self.wf(),
        ensures
            char_views(r@) == flushed(self.state()).done,
    {
        let mut packer = self;
        packer.flush();
        packer.done
    }
}

/// Packs sentences into segments of at most `max` bytes.
pub fn pack_sentences(found: &Vec<Vec<char>>, max: usize) -> (r: Vec<Vec<char>>)
    ensures
        char_views(r@) == flushed(with_sentences(fresh(), char_views(found@), max)).done,
{
    let ghost all = char_views(found@);
    let mut packer = Packer::new();
    let mut i: usize = 0;
    assert(all.take(0) =~= Seq::<Seq<char>>::empty());
    while i < found.len()
        invariant
            i <= found.len(),
            all == char_views(found@),
            packer.wf(),
            packer.state() == with_sentences(fresh(), all.take(i as int), max),
        decreases found.len() - i,
    {
        assert(all.take(i + 1).drop_last() =~= all.take(i as int));
        assert(all.take(i + 1).last() == found@[i as int]@);
        packer.add_sentence(found[i].as_slice(), max);
        i += 1;
    }
    assert(all.take(found.len() as int) =~= all);
    packer.finish()
}

/// Splits a transcript into segments of at most `max` bytes, sentence by sentence. The
/// segments depend on the two arguments alone. Only a single word that itself takes more
/// than `max` bytes makes a segment larger; no segment is empty or has white space at
/// either end; together the segments hold the content of the transcript, in order; and
/// there are segments exactly when there is content.
pub fn chunk_transcript(text: &str, max: usize) -> (r: Vec<String>)
    ensures
        views(r@) == chunks(text@, max),
        forall|i: int| 0 <= i < r@.len() ==> fits((#[trigger] r@[i])@, max) && is_neat(r@[i]@),
        forall|i: int|
            0 <= i < r@.len() ==> vstd::utf8::encode_utf8((#[trigger] r@[i])@).len() <= max
                || is_word(r@[i]@),
        content(concat(views(r@))) == content(text@),
        r@.len() > 0 <==> content(text@).len() > 0,
{
    let chars = chars_of(text);
    let found = split(chars.as_slice(), Separator::Terminator);
    let segments = pack_sentences(&found, max);
    let ghost all = chunks(text@, max);
    let mut out: Vec<String> = Vec::new();
    let mut i: usize = 0;
    while i < segments.len()
        invariant
            i <= segments.len(),
            char_views(segments@) == all,
            views(out@) =~= all.take(i as int),
        decreases segments.len() - i,
    {
        let segment = text_of(segments[i].as_slice());
        let ghost before = views(out@);
        assert(all[i as int] == segments@[i as int]@);
        out.push(segment);
        assert(views(out@) =~= before.push(all[i as int]));
        i += 1;
    }
    assert(all.take(segments.len() as int) =~= all);
    proof {
        lemma_segments_fit(text@, max);
        lemma_content_kept(text@, max);
        lemma_segments_iff_content(text@, max);
        assert forall|i: int| 0 <= i < out@.len() implies fits((#[trigger] out@[i])@, max)
            && is_neat(out@[i]@) by {
            assert(views(out@)[i] == out@[i]@);
        }
        assert forall|i: int| 0 <= i < out@.len() implies vstd::utf8::encode_utf8(
            (#[trigger] out@[i])@,
        ).len() <= max || is_word(out@[i]@) by {
            lemma_size_is_byte_length(out@[i]@);
        }
    }
    out
}

} // verus!
