//! Reading markup back: with the markers stripped and the character
//! references resolved, rendered markup is the text it was rendered from.

use crate::entity::Category;
use crate::markup::{
    all_in_text, amp_ref, apos_ref, close_marker, escape, escape_char, gt_ref, lt_ref,
    open_marker, quot_ref, render, render_matches,
};
use crate::overlap::{cursor_after, non_overlapping, RawMatch};
use crate::text::{lemma_span_join, span_in_text, span_value, text_bytes};
use vstd::prelude::*;
use vstd::utf8::*;

verus! {

/// `s` without its markers, read from a position inside a marker
/// (`inside` true) or outside: a marker runs from `<` to the next `>`.
pub open spec fn strip_markers_from(s: Seq<char>, inside: bool) -> Seq<char>
    decreases s.len(),
{
    if s.len() == 0 {
        Seq::empty()
    } else if inside {
        strip_markers_from(s.drop_first(), s.first() != '>')
    } else if s.first() == '<' {
        strip_markers_from(s.drop_first(), true)
    } else {
        seq![s.first()] + strip_markers_from(s.drop_first(), false)
    }
}

/// Whether reading `s` ends inside a marker.
pub open spec fn ends_inside(s: Seq<char>, inside: bool) -> bool
    decreases s.len(),
{
    if s.len() == 0 {
        inside
    } else if inside {
        ends_inside(s.drop_first(), s.first() != '>')
    } else {
        ends_inside(s.drop_first(), s.first() == '<')
    }
}

/// `s` without its markers.
pub open spec fn strip_markers(s: Seq<char>) -> Seq<char> {
    strip_markers_from(s, false)
}

/// `s` with each of the five character references replaced by its
/// character.
pub open spec fn unescape(s: Seq<char>) -> Seq<char>
    decreases s.len(),
{
    if s.len() == 0 {
        Seq::empty()
    } else if amp_ref().is_prefix_of(s) {
        seq!['&'] + unescape(s.skip(5))
    } else if lt_ref().is_prefix_of(s) {
        seq!['<'] + unescape(s.skip(4))
    } else if gt_ref().is_prefix_of(s) {
        seq!['>'] + unescape(s.skip(4))
    } else if quot_ref().is_prefix_of(s) {
        seq!['"'] + unescape(s.skip(6))
    } else if apos_ref().is_prefix_of(s) {
        seq!['\''] + unescape(s.skip(6))
    } else {
        seq![s.first()] + unescape(s.skip(1))
    }
}

/// `s` holds neither `<` nor `>`.
pub open spec fn no_angle(s: Seq<char>) -> bool {
    forall|i: int| 0 <= i < s.len() ==> s[i] != '<' && s[i] != '>'
}

/// `s` is one marker: it opens with `<` and its only `>` closes it.
pub open spec fn is_marker(s: Seq<char>) -> bool {
    &&& s.len() >= 2
    &&& s.first() == '<'
    &&& s.last() == '>'
    &&& forall|i: int| 0 <= i < s.len() - 1 ==> s[i] != '>'
}

/// Escaping goes piece by piece.
pub proof fn lemma_escape_concat(a: Seq<char>, b: Seq<char>)
    ensures
        escape(a + b) == escape(a) + escape(b),
    decreases b.len(),
{
    if b.len() == 0 {
        assert(a + b =~= a);
        assert(escape(a) + escape(b) =~= escape(a));
    } else {
        assert((a + b).drop_last() =~= a + b.drop_last());
        assert((a + b).last() == b.last());
        lemma_escape_concat(a, b.drop_last());
        assert(escape(a + b) =~= escape(a) + escape(b));
    }
}

/// Escaped text holds neither `<` nor `>`.
pub proof fn lemma_escape_no_angle(s: Seq<char>)
    ensures
        no_angle(escape(s)),
    decreases s.len(),
{
    if s.len() > 0 {
        lemma_escape_no_angle(s.drop_last());
    }
}

/// Reading across two pieces is reading the first and then the second, from
/// the state in which the first ended.
pub proof fn lemma_strip_concat(a: Seq<char>, b: Seq<char>, inside: bool)
    ensures
        strip_markers_from(a + b, inside) == strip_markers_from(a, inside) + strip_markers_from(
            b,
            ends_inside(a, inside),
        ),
        ends_inside(a + b, inside) == ends_inside(b, ends_inside(a, inside)),
    decreases a.len(),
{
    if a.len() == 0 {
        assert(a + b =~= b);
        assert(strip_markers_from(a, inside) + strip_markers_from(b, inside)
            =~= strip_markers_from(b, inside));
    } else {
        assert((a + b).drop_first() =~= a.drop_first() + b);
        assert((a + b).first() == a.first());
        let next = if inside {
            a.first() != '>'
        } else {
            a.first() == '<'
        };
        lemma_strip_concat(a.drop_first(), b, next);
        if !inside && a.first() != '<' {
            assert(strip_markers_from(a + b, inside) =~= strip_markers_from(a, inside)
                + strip_markers_from(b, ends_inside(a, inside)));
        }
    }
}

/// Text without `<` and `>` holds no marker: stripping leaves it as it is.
pub proof fn lemma_strip_plain(s: Seq<char>)
    requires
        no_angle(s),
    ensures
        strip_markers_from(s, false) == s,
        !ends_inside(s, false),
    decreases s.len(),
{
    if s.len() > 0 {
        assert(no_angle(s.drop_first())) by {
            assert forall|i: int| 0 <= i < s.drop_first().len() implies s.drop_first()[i] != '<'
                && s.drop_first()[i] != '>' by {
                assert(s.drop_first()[i] == s[i + 1]);
            }
        }
        lemma_strip_plain(s.drop_first());
        assert(s =~= seq![s.first()] + s.drop_first());
    }
}

/// Read from inside a marker, text up to its first `>` vanishes.
proof fn lemma_strip_inside(s: Seq<char>)
    requires
        s.len() >= 1,
        s.last() == '>',
        forall|i: int| 0 <= i < s.len() - 1 ==> s[i] != '>',
    ensures
        strip_markers_from(s, true) == Seq::<char>::empty(),
        !ends_inside(s, true),
    decreases s.len(),
{
    if s.len() > 1 {
        let rest = s.drop_first();
        assert(rest.last() == s.last());
        assert forall|i: int| 0 <= i < rest.len() - 1 implies rest[i] != '>' by {
            assert(rest[i] == s[i + 1]);
        }
        assert(s.first() != '>') by {
            assert(s[0] != '>');
        }
        lemma_strip_inside(rest);
    } else {
        assert(s.first() == s.last());
        assert(s.drop_first().len() == 0);
        assert(strip_markers_from(s.drop_first(), false) == Seq::<char>::empty());
        assert(!ends_inside(s.drop_first(), false));
    }
}

/// A marker vanishes when markers are stripped.
pub proof fn lemma_strip_marker(s: Seq<char>)
    requires
        is_marker(s),
    ensures
        strip_markers_from(s, false) == Seq::<char>::empty(),
        !ends_inside(s, false),
{
    let rest = s.drop_first();
    assert(rest.last() == s.last());
    assert forall|i: int| 0 <= i < rest.len() - 1 implies rest[i] != '>' by {
        assert(rest[i] == s[i + 1]);
    }
    lemma_strip_inside(rest);
}

/// The markers that the renderer writes are markers.
pub proof fn lemma_markers(category: Category, titled: bool)
    ensures
        is_marker(open_marker(category, titled)),
        is_marker(close_marker()),
{
    reveal_strlit("<span class=\"entity ");
    reveal_strlit("\" data-type=\"");
    reveal_strlit("\" title=\"");
    reveal_strlit("\">");
    reveal_strlit("</span>");
    reveal_strlit("date");
    reveal_strlit("person");
    reveal_strlit("organization");
    reveal_strlit("amount");
    reveal_strlit("location");
    reveal_strlit("email");
    reveal_strlit("phone");
    reveal_strlit("url");
    reveal_strlit("entity-date");
    reveal_strlit("entity-person");
    reveal_strlit("entity-org");
    reveal_strlit("entity-amount");
    reveal_strlit("entity-location");
    reveal_strlit("entity-email");
    reveal_strlit("entity-phone");
    reveal_strlit("entity-url");
    let head = "<span class=\"entity "@;
    let class = category.spec_style_class();
    let tag = category.spec_tag();
    let body = if titled {
        head + class + "\" data-type=\""@ + tag + "\" title=\""@ + tag
    } else {
        head + class + "\" data-type=\""@ + tag
    };
    assert(forall|i: int| 0 <= i < body.len() ==> body[i] != '>');
    let whole = open_marker(category, titled);
    assert(whole =~= body + "\">"@);
    assert(whole.len() == body.len() + 2);
    assert(whole.first() == head[0]);
    assert(whole.last() == "\">"@[1]);
    assert forall|i: int| 0 <= i < whole.len() - 1 implies whole[i] != '>' by {
        if i < body.len() {
            assert(whole[i] == body[i]);
        } else {
            assert(whole[i] == "\">"@[0]);
        }
    }
}

/// A piece of escaped text between markers: stripping the markers leaves the
/// escaped text.
pub proof fn lemma_strip_marked(category: Category, titled: bool, inner: Seq<char>)
    requires
        no_angle(inner),
    ensures
        strip_markers_from(open_marker(category, titled) + inner + close_marker(), false)
            == inner,
        !ends_inside(open_marker(category, titled) + inner + close_marker(), false),
{
    lemma_markers(category, titled);
    lemma_strip_marker(open_marker(category, titled));
    lemma_strip_marker(close_marker());
    lemma_strip_plain(inner);
    lemma_strip_concat(open_marker(category, titled), inner, false);
    lemma_strip_concat(open_marker(category, titled) + inner, close_marker(), false);
    assert(Seq::<char>::empty() + inner + Seq::<char>::empty() =~= inner);
}

/// Resolving the references of an escaped character and what follows it
/// gives the character and what follows resolved.
pub proof fn lemma_unescape_char(c: char, rest: Seq<char>)
    ensures
        unescape(escape_char(c) + rest) == seq![c] + unescape(rest),
{
    let s = escape_char(c) + rest;
    let n = escape_char(c).len() as int;
    assert(s.skip(n) =~= rest);
    assert(s.take(n) =~= escape_char(c));
    assert(s[0] == escape_char(c)[0]);
    if c == '&' {
    } else if c == '<' {
        assert(s[1] == 'l');
        assert(!amp_ref().is_prefix_of(s)) by {
            if amp_ref().is_prefix_of(s) {
                assert(s[1] == amp_ref()[1]);
            }
        }
    } else if c == '>' {
        assert(s[1] == 'g');
        assert(!amp_ref().is_prefix_of(s)) by {
            if amp_ref().is_prefix_of(s) {
                assert(s[1] == amp_ref()[1]);
            }
        }
        assert(!lt_ref().is_prefix_of(s)) by {
            if lt_ref().is_prefix_of(s) {
                assert(s[1] == lt_ref()[1]);
            }
        }
    } else if c == '"' {
        assert(s[1] == 'q');
        assert(!amp_ref().is_prefix_of(s)) by {
            if amp_ref().is_prefix_of(s) {
                assert(s[1] == amp_ref()[1]);
            }
        }
        assert(!lt_ref().is_prefix_of(s)) by {
            if lt_ref().is_prefix_of(s) {
                assert(s[1] == lt_ref()[1]);
            }
        }
        assert(!gt_ref().is_prefix_of(s)) by {
            if gt_ref().is_prefix_of(s) {
                assert(s[1] == gt_ref()[1]);
            }
        }
    } else if c == '\'' {
        assert(s[1] == '#');
        assert(!amp_ref().is_prefix_of(s)) by {
            if amp_ref().is_prefix_of(s) {
                assert(s[1] == amp_ref()[1]);
            }
        }
        assert(!lt_ref().is_prefix_of(s)) by {
            if lt_ref().is_prefix_of(s) {
                assert(s[1] == lt_ref()[1]);
            }
        }
        assert(!gt_ref().is_prefix_of(s)) by {
            if gt_ref().is_prefix_of(s) {
                assert(s[1] == gt_ref()[1]);
            }
        }
        assert(!quot_ref().is_prefix_of(s)) by {
            if quot_ref().is_prefix_of(s) {
                assert(s[1] == quot_ref()[1]);
            }
        }
    } else {
        assert(s.first() == c);
        assert(!amp_ref().is_prefix_of(s)) by {
            if amp_ref().is_prefix_of(s) {
                assert(s[0] == amp_ref()[0]);
            }
        }
        assert(!lt_ref().is_prefix_of(s)) by {
            if lt_ref().is_prefix_of(s) {
                assert(s[0] == lt_ref()[0]);
            }
        }
        assert(!gt_ref().is_prefix_of(s)) by {
            if gt_ref().is_prefix_of(s) {
                assert(s[0] == gt_ref()[0]);
            }
        }
        assert(!quot_ref().is_prefix_of(s)) by {
            if quot_ref().is_prefix_of(s) {
                assert(s[0] == quot_ref()[0]);
            }
        }
        assert(!apos_ref().is_prefix_of(s)) by {
            if apos_ref().is_prefix_of(s) {
                assert(s[0] == apos_ref()[0]);
            }
        }
    }
}

/// Resolving the references of escaped text gives the text back.
pub proof fn lemma_unescape_escape(s: Seq<char>)
    ensures
        unescape(escape(s)) == s,
    decreases s.len(),
{
    if s.len() > 0 {
        let head = seq![s.first()];
        let rest = s.drop_first();
        assert(s =~= head + rest);
        lemma_escape_concat(head, rest);
        assert(head.drop_last() =~= Seq::<char>::empty());
        assert(escape(head) =~= escape_char(s.first())) by {
            assert(escape(head.drop_last()) =~= Seq::<char>::empty());
            assert(head.last() == s.first());
        }
        lemma_unescape_char(s.first(), escape(rest));
        lemma_unescape_escape(rest);
    }
}

/// With its markers stripped, the markup up to the end of the last match is
/// the escaped text up to there.
pub proof fn lemma_strip_rendered_matches(text: Seq<char>, accepted: Seq<RawMatch>, titled: bool)
    requires
        all_in_text(text, accepted),
        non_overlapping(accepted),
    ensures
        strip_markers_from(render_matches(text, accepted, titled), false) == escape(
            span_value(text, 0, cursor_after(accepted)),
        ),
        !ends_inside(render_matches(text, accepted, titled), false),
        span_in_text(text, 0, cursor_after(accepted)),
    decreases accepted.len(),
{
    broadcast use vstd::utf8::group_utf8_lib;

    if accepted.len() == 0 {
        assert(text_bytes(text).subrange(0, 0) =~= Seq::<u8>::empty());
        assert(span_value(text, 0, 0) =~= Seq::<char>::empty());
    } else {
        let before = accepted.drop_last();
        let m = accepted.last();
        let cursor = cursor_after(before);
        assert(all_in_text(text, before)) by {
            assert forall|i: int| 0 <= i < before.len() implies span_in_text(
                text,
                (#[trigger] before[i]).start as int,
                before[i].end as int,
            ) by {
                assert(before[i] == accepted[i]);
            }
        }
        assert(non_overlapping(before)) by {
            assert forall|i: int, j: int| 0 <= i < j < before.len() implies before[i].end
                <= before[j].start by {
                assert(accepted[i].end <= accepted[j].start);
            }
        }
        lemma_strip_rendered_matches(text, before, titled);
        assert(m == accepted[accepted.len() - 1]);
        assert(span_in_text(text, m.start as int, m.end as int));
        if before.len() > 0 {
            assert(before.last() == accepted[accepted.len() - 2]);
            assert(accepted[accepted.len() - 2].end <= accepted[accepted.len() - 1].start);
        }
        let gap = escape(span_value(text, cursor, m.start as int));
        let inner = escape(span_value(text, m.start as int, m.end as int));
        let marked = open_marker(m.category, titled) + inner + close_marker();
        let prefix = render_matches(text, before, titled);
        assert(render_matches(text, accepted, titled) =~= (prefix + gap) + marked);
        lemma_escape_no_angle(span_value(text, cursor, m.start as int));
        lemma_escape_no_angle(span_value(text, m.start as int, m.end as int));
        lemma_strip_plain(gap);
        lemma_strip_marked(m.category, titled, inner);
        lemma_strip_concat(prefix, gap, false);
        lemma_strip_concat(prefix + gap, marked, false);
        lemma_span_join(text, 0, cursor, m.start as int);
        lemma_span_join(text, 0, m.start as int, m.end as int);
        lemma_escape_concat(span_value(text, 0, cursor), span_value(text, cursor, m.start as int));
        lemma_escape_concat(
            span_value(text, 0, m.start as int),
            span_value(text, m.start as int, m.end as int),
        );
    }
}

/// For every text and every list of matches that lie in it without
/// overlapping: the markup, with its markers stripped and its character
/// references resolved, is the text.
pub proof fn lemma_markup_reads_back(text: Seq<char>, accepted: Seq<RawMatch>, titled: bool)
    requires
        all_in_text(text, accepted),
        non_overlapping(accepted),
    ensures
        strip_markers(render(text, accepted, titled)) == escape(text),
        unescape(strip_markers(render(text, accepted, titled))) == text,
{
    broadcast use vstd::utf8::group_utf8_lib;

    let bytes = text_bytes(text);
    let cursor = cursor_after(accepted);
    let end = bytes.len() as int;
    lemma_strip_rendered_matches(text, accepted, titled);
    is_char_boundary_start_end_of_seq(bytes);
    let tail = escape(span_value(text, cursor, end));
    lemma_escape_no_angle(span_value(text, cursor, end));
    lemma_strip_plain(tail);
    lemma_strip_concat(render_matches(text, accepted, titled), tail, false);
    lemma_span_join(text, 0, cursor, end);
    lemma_escape_concat(span_value(text, 0, cursor), span_value(text, cursor, end));
    assert(bytes.subrange(0, end) =~= bytes);
    assert(span_value(text, 0, end) == text);
    lemma_unescape_escape(text);
}

} // verus!
