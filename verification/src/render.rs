//! How a selected path is written out.

use crate::pattern::MatchSpan;
use vstd::prelude::*;
use vstd::string::*;
use vstd::utf8::*;

verus! {

/// The control sequence that turns the foreground colour on.
pub const COLOR_ON: &'static str = "\x1b[91m";

/// The control sequence that resets the colour.
pub const COLOR_OFF: &'static str = "\x1b[0m";

/// The escape character, with which both control sequences begin.
pub open spec fn escape() -> char {
    '\x1b'
}

/// The characters of [`COLOR_ON`].
pub open spec fn color_on() -> Seq<char> {
    seq![escape(), '[', '9', '1', 'm']
}

/// The characters of [`COLOR_OFF`].
pub open spec fn color_off() -> Seq<char> {
    seq![escape(), '[', '0', 'm']
}

/// The text that the bytes `from..to` of the encoding of `name` spell.
pub open spec fn piece(name: Seq<char>, from: int, to: int) -> Seq<char> {
    decode_utf8(encode_utf8(name).subrange(from, to))
}

/// The part of `name` before the span.
pub open spec fn before(name: Seq<char>, span: MatchSpan) -> Seq<char> {
    piece(name, 0, span.start as int)
}

/// The part of `name` that the span covers.
pub open spec fn inside(name: Seq<char>, span: MatchSpan) -> Seq<char> {
    piece(name, span.start as int, span.end as int)
}

/// The part of `name` after the span.
pub open spec fn after(name: Seq<char>, span: MatchSpan) -> Seq<char> {
    piece(name, span.end as int, encode_utf8(name).len() as int)
}

/// The line for a match. In both modes it is the parent, a slash and the
/// name. When colours are on, the part of the name that the span covers
/// stands between the two control sequences.
pub open spec fn rendered(
    parent: Seq<char>,
    name: Seq<char>,
    span: MatchSpan,
    colorize: bool,
) -> Seq<char> {
    if colorize {
        parent + seq!['/'] + before(name, span) + color_on() + inside(name, span) + color_off()
            + after(name, span)
    } else {
        parent + seq!['/'] + name
    }
}

/// A character boundary of a text is one of each prefix that reaches it.
proof fn lemma_boundary_in_prefix(bytes: Seq<u8>, index: int, end: int)
    requires
        valid_utf8(bytes),
        0 <= index <= end <= bytes.len(),
        is_char_boundary(bytes, index),
        is_char_boundary(bytes, end),
    ensures
        is_char_boundary(bytes.subrange(0, end), index),
{
    let head = bytes.subrange(0, end);
    valid_utf8_split(bytes, end);
    if index == end {
        is_char_boundary_start_end_of_seq(head);
    } else {
        is_char_boundary_iff_not_is_continuation_byte(bytes, index);
        is_char_boundary_iff_not_is_continuation_byte(head, index);
    }
}

/// A name is the part before the span, the part that the span covers and
/// the part after it, put together.
pub proof fn lemma_parts_make_name(name: Seq<char>, span: MatchSpan)
    requires
        span.fits(name),
    ensures
        before(name, span) + inside(name, span) + after(name, span) == name,
{
    let bytes = encode_utf8(name);
    let s = span.start as int;
    let e = span.end as int;
    let head = bytes.subrange(0, e);
    encode_utf8_valid_utf8(name);
    encode_utf8_decode_utf8(name);
    decode_utf8_split(bytes, e);
    valid_utf8_split(bytes, e);
    lemma_boundary_in_prefix(bytes, s, e);
    decode_utf8_split(head, s);
    assert(head.subrange(0, s) =~= bytes.subrange(0, s));
    assert(head.subrange(s, head.len() as int) =~= bytes.subrange(s, e));
}

/// Highlighting puts the two control sequences around the part of the
/// name that the span covers and changes nothing else: the highlighted
/// line is the plain line with the first sequence put in where the span
/// begins and the second where it ends, and both places lie in the name,
/// behind the parent and the slash.
pub proof fn lemma_highlight_brackets_span(parent: Seq<char>, name: Seq<char>, span: MatchSpan)
    requires
        span.fits(name),
    ensures
        ({
            let plain = rendered(parent, name, span, false);
            let from = (parent.len() + 1 + before(name, span).len()) as int;
            let to: int = from + inside(name, span).len();
            &&& parent.len() < from <= to <= plain.len()
            &&& plain.subrange(from, to) == inside(name, span)
            &&& rendered(parent, name, span, true) == plain.subrange(0, from) + color_on()
                + plain.subrange(from, to) + color_off() + plain.subrange(to, plain.len() as int)
        }),
{
    lemma_parts_make_name(name, span);
    let plain = rendered(parent, name, span, false);
    let from = (parent.len() + 1 + before(name, span).len()) as int;
    let to: int = from + inside(name, span).len();
    assert(plain =~= parent + seq!['/'] + before(name, span) + inside(name, span) + after(
        name,
        span,
    ));
    assert(plain.subrange(0, from) =~= parent + seq!['/'] + before(name, span));
    assert(plain.subrange(from, to) =~= inside(name, span));
    assert(plain.subrange(to, plain.len() as int) =~= after(name, span));
}

/// A text with every control sequence of the two taken out, from the left.
pub open spec fn strip_colors(text: Seq<char>) -> Seq<char>
    decreases text.len(),
{
    if text.len() == 0 {
        text
    } else if color_on().is_prefix_of(text) {
        strip_colors(text.skip(color_on().len() as int))
    } else if color_off().is_prefix_of(text) {
        strip_colors(text.skip(color_off().len() as int))
    } else {
        seq![text[0]] + strip_colors(text.skip(1))
    }
}

/// Stripping takes nothing out of the text: no control sequence stands
/// where the stripping would find it.
pub open spec fn sequence_free(text: Seq<char>) -> bool {
    strip_colors(text) == text
}

/// Stripping makes a text no longer, and leaves one of the same length as
/// it was.
proof fn lemma_strip_shrinks(text: Seq<char>)
    ensures
        strip_colors(text).len() <= text.len(),
        strip_colors(text).len() == text.len() ==> strip_colors(text) == text,
    decreases text.len(),
{
    if text.len() == 0 {
    } else if color_on().is_prefix_of(text) {
        lemma_strip_shrinks(text.skip(color_on().len() as int));
    } else if color_off().is_prefix_of(text) {
        lemma_strip_shrinks(text.skip(color_off().len() as int));
    } else {
        lemma_strip_shrinks(text.skip(1));
        if strip_colors(text).len() == text.len() {
            assert(seq![text[0]] + text.skip(1) =~= text);
        }
    }
}

/// A control sequence that was put into a text is taken out by the
/// stripping, and the text before it and the text behind it are stripped
/// each for itself: no control sequence begins in the one and ends in the
/// other one or in what was put in.
proof fn lemma_strip_past_sequence(head: Seq<char>, sequence: Seq<char>, rest: Seq<char>)
    requires
        sequence == color_on() || sequence == color_off(),
    ensures
        strip_colors(head + sequence + rest) == strip_colors(head) + strip_colors(rest),
    decreases head.len(),
{
    let whole = head + sequence + rest;
    let on = color_on();
    let off = color_off();
    if head.len() == 0 {
        assert(whole =~= sequence + rest);
        assert(whole.subrange(0, sequence.len() as int) =~= sequence);
        assert(whole.skip(sequence.len() as int) =~= rest);
        if sequence == off {
            assert(!on.is_prefix_of(whole)) by {
                if on.is_prefix_of(whole) {
                    assert(whole.subrange(0, on.len() as int)[2] == on[2]);
                }
            }
        }
        assert(strip_colors(head) + strip_colors(rest) =~= strip_colors(rest));
    } else {
        assert(whole[0] == head[0]);
        // Within the first characters of the whole, the escape character
        // of what was put in stands where neither sequence has one.
        assert(on.is_prefix_of(whole) <==> on.is_prefix_of(head)) by {
            if on.is_prefix_of(whole) {
                let front = whole.subrange(0, on.len() as int);
                if head.len() < on.len() {
                    assert(front[head.len() as int] == sequence[0]);
                } else {
                    assert(head.subrange(0, on.len() as int) =~= front);
                }
            }
            if on.is_prefix_of(head) {
                assert(whole.subrange(0, on.len() as int) =~= head.subrange(0, on.len() as int));
            }
        }
        assert(off.is_prefix_of(whole) <==> off.is_prefix_of(head)) by {
            if off.is_prefix_of(whole) {
                let front = whole.subrange(0, off.len() as int);
                if head.len() < off.len() {
                    assert(front[head.len() as int] == sequence[0]);
                } else {
                    assert(head.subrange(0, off.len() as int) =~= front);
                }
            }
            if off.is_prefix_of(head) {
                assert(whole.subrange(0, off.len() as int) =~= head.subrange(
                    0,
                    off.len() as int,
                ));
            }
        }
        let taken: int = if on.is_prefix_of(head) {
            on.len() as int
        } else if off.is_prefix_of(head) {
            off.len() as int
        } else {
            1
        };
        assert(whole.skip(taken) =~= head.skip(taken) + sequence + rest);
        lemma_strip_past_sequence(head.skip(taken), sequence, rest);
        if !on.is_prefix_of(head) && !off.is_prefix_of(head) {
            assert(seq![head[0]] + (strip_colors(head.skip(1)) + strip_colors(rest)) =~= (seq![
                head[0],
            ] + strip_colors(head.skip(1))) + strip_colors(rest));
        }
    }
}

/// The highlighted line with the control sequences stripped is the plain
/// line if and only if no control sequence stands in the plain line
/// already: not in the parent, the slash and the part of the name before
/// the span, not in the part that the span covers, and not in the part
/// after it.
pub proof fn lemma_stripped_highlight_is_plain(parent: Seq<char>, name: Seq<char>, span: MatchSpan)
    requires
        span.fits(name),
    ensures
        strip_colors(rendered(parent, name, span, true)) == rendered(parent, name, span, false)
            <==> sequence_free(parent + seq!['/'] + before(name, span)) && sequence_free(
            inside(name, span),
        ) && sequence_free(after(name, span)),
{
    lemma_parts_make_name(name, span);
    let head = parent + seq!['/'] + before(name, span);
    let middle = inside(name, span);
    let tail = after(name, span);
    let lit = rendered(parent, name, span, true);
    let plain = rendered(parent, name, span, false);
    assert(lit =~= head + color_on() + (middle + color_off() + tail));
    assert(plain =~= head + middle + tail);
    lemma_strip_past_sequence(head, color_on(), middle + color_off() + tail);
    lemma_strip_past_sequence(middle, color_off(), tail);
    let stripped = strip_colors(head) + strip_colors(middle) + strip_colors(tail);
    assert(strip_colors(lit) =~= stripped);
    lemma_strip_shrinks(head);
    lemma_strip_shrinks(middle);
    lemma_strip_shrinks(tail);
    if stripped == plain {
        assert(stripped.len() == plain.len());
    }
}

/// The two constants hold the characters that the descriptions speak of.
pub proof fn lemma_color_constants()
    ensures
        COLOR_ON@ == color_on(),
        COLOR_OFF@ == color_off(),
{
    reveal_strlit("\x1b[91m");
    reveal_strlit("\x1b[0m");
    assert(COLOR_ON@ =~= color_on());
    assert(COLOR_OFF@ =~= color_off());
}

/// Writes the line for a match.
pub fn render_match(parent: &str, name: &str, span: MatchSpan, colorize: bool) -> (line: String)
    requires
        span.fits(name@),
    ensures
        line@ == rendered(parent@, name@, span, colorize),
{
    let ghost bytes = name.spec_bytes();
    proof {
        encode_utf8_valid_utf8(name@);
        valid_utf8_split(bytes, span.end as int);
        lemma_boundary_in_prefix(bytes, span.start as int, span.end as int);
    }
    let (head, tail) = name.split_at(span.end);
    let (front, middle) = head.split_at(span.start);
    proof {
        encode_utf8_decode_utf8(head@);
        encode_utf8_decode_utf8(tail@);
        encode_utf8_decode_utf8(front@);
        encode_utf8_decode_utf8(middle@);
        assert(head.spec_bytes().subrange(0, span.start as int) =~= bytes.subrange(
            0,
            span.start as int,
        ));
        assert(head.spec_bytes().subrange(span.start as int, head.spec_bytes().len() as int)
            =~= bytes.subrange(span.start as int, span.end as int));
        assert(front@ == before(name@, span));
        assert(middle@ == inside(name@, span));
        assert(tail@ == after(name@, span));
        lemma_parts_make_name(name@, span);
        lemma_color_constants();
        reveal_strlit("/");
        assert("/"@ =~= seq!['/']);
    }
    let mut line = String::from_str(parent);
    line.append("/");
    line.append(front);
    if colorize {
        line.append(COLOR_ON);
    }
    line.append(middle);
    if colorize {
        line.append(COLOR_OFF);
    }
    line.append(tail);
    assert(line@ =~= rendered(parent@, name@, span, colorize));
    line
}

} // verus!
