//! Rendering: the text with every accepted match wrapped in a tagged inline
//! marker, and everything else escaped.

use crate::entity::Category;
use crate::overlap::{cursor_after, non_overlapping, RawMatch};
use crate::text::{cut, push_char, span_in_text, span_value, text_bytes};
use vstd::prelude::*;
use vstd::string::*;
use vstd::utf8::*;

verus! {

broadcast use vstd::utf8::group_utf8_lib;

/// The character reference of the ampersand: `&amp;`.
pub open spec fn amp_ref() -> Seq<char> {
    seq!['&', 'a', 'm', 'p', ';']
}

/// The character reference of the less-than sign: `&lt;`.
pub open spec fn lt_ref() -> Seq<char> {
    seq!['&', 'l', 't', ';']
}

/// The character reference of the greater-than sign: `&gt;`.
pub open spec fn gt_ref() -> Seq<char> {
    seq!['&', 'g', 't', ';']
}

/// The character reference of the double quote: `&quot;`.
pub open spec fn quot_ref() -> Seq<char> {
    seq!['&', 'q', 'u', 'o', 't', ';']
}

/// The character reference of the single quote: `&#x27;`.
pub open spec fn apos_ref() -> Seq<char> {
    seq!['&', '#', 'x', '2', '7', ';']
}

/// What a character becomes in markup: the five characters that markup
/// gives a meaning are replaced by character references.
pub open spec fn escape_char(c: char) -> Seq<char> {
    if c == '&' {
        amp_ref()
    } else if c == '<' {
        lt_ref()
    } else if c == '>' {
        gt_ref()
    } else if c == '"' {
        quot_ref()
    } else if c == '\'' {
        apos_ref()
    } else {
        seq![c]
    }
}

/// A text with every character escaped.
pub open spec fn escape(s: Seq<char>) -> Seq<char>
    decreases s.len(),
{
    if s.len() == 0 {
        s
    } else {
        escape(s.drop_last()) + escape_char(s.last())
    }
}

/// The marker that opens a match of `category`: an inline element that
/// carries the display class and the category, and with `titled` the
/// category once more as its title.
pub open spec fn open_marker(category: Category, titled: bool) -> Seq<char> {
    if titled {
        "<span class=\"entity "@ + category.spec_style_class() + "\" data-type=\""@
            + category.spec_tag() + "\" title=\""@ + category.spec_tag() + "\">"@
    } else {
        "<span class=\"entity "@ + category.spec_style_class() + "\" data-type=\""@
            + category.spec_tag() + "\">"@
    }
}

/// The marker that closes a match.
pub open spec fn close_marker() -> Seq<char> {
    "</span>"@
}

/// The markup of the text up to the end of the last of `accepted`: before
/// each match the escaped text since the match before it, then the match,
/// escaped, between its markers.
pub open spec fn render_matches(text: Seq<char>, accepted: Seq<RawMatch>, titled: bool) -> Seq<
    char,
>
    decreases accepted.len(),
{
    if accepted.len() == 0 {
        Seq::empty()
    } else {
        let before = accepted.drop_last();
        let m = accepted.last();
        render_matches(text, before, titled) + escape(
            span_value(text, cursor_after(before), m.start as int),
        ) + open_marker(m.category, titled) + escape(
            span_value(text, m.start as int, m.end as int),
        ) + close_marker()
    }
}

/// The markup of the whole text with `accepted` marked.
pub open spec fn render(text: Seq<char>, accepted: Seq<RawMatch>, titled: bool) -> Seq<char> {
    render_matches(text, accepted, titled) + escape(
        span_value(text, cursor_after(accepted), text_bytes(text).len() as int),
    )
}

/// Every match can be cut out of `text`.
pub open spec fn all_in_text(text: Seq<char>, matches: Seq<RawMatch>) -> bool {
    forall|i: int|
        0 <= i < matches.len() ==> span_in_text(
            text,
            (#[trigger] matches[i]).start as int,
            matches[i].end as int,
        )
}

/// Appends the escaped form of `s` to `out`.
pub fn escape_into(out: &mut String, s: &str)
    ensures
        final(out)@ == old(out)@ + escape(s@),
{
    let ghost start = out@;
    for c in it: s.chars()
        invariant
            it.seq() == s@,
            out@ == start + escape(s@.take(it.index() as int)),
    {
        proof {
            assert(s@.take(it.index() + 1).drop_last() =~= s@.take(it.index() as int));
            assert(s@.take(it.index() + 1).last() == c);
        }
        let ghost before = out@;
        proof {
            reveal_strlit("&amp;");
            reveal_strlit("&lt;");
            reveal_strlit("&gt;");
            reveal_strlit("&quot;");
            reveal_strlit("&#x27;");
            assert("&amp;"@ =~= amp_ref());
            assert("&lt;"@ =~= lt_ref());
            assert("&gt;"@ =~= gt_ref());
            assert("&quot;"@ =~= quot_ref());
            assert("&#x27;"@ =~= apos_ref());
        }
        if c == '&' {
            out.append("&amp;");
        } else if c == '<' {
            out.append("&lt;");
        } else if c == '>' {
            out.append("&gt;");
        } else if c == '"' {
            out.append("&quot;");
        } else if c == '\'' {
            out.append("&#x27;");
        } else {
            push_char(out, c);
        }
        proof {
            assert(out@ =~= before + escape_char(c));
            assert(out@ =~= start + (escape(s@.take(it.index() as int)) + escape_char(c)));
        }
    }
    proof {
        assert(s@.take(s@.len() as int) =~= s@);
    }
}

/// The escaped form of `s`.
pub fn escape_html(s: &str) -> (escaped: String)
    ensures
        escaped@ == escape(s@),
{
    let mut escaped = String::new();
    escape_into(&mut escaped, s);
    proof {
        assert(Seq::<char>::empty() + escape(s@) =~= escape(s@));
    }
    escaped
}

/// Appends the marker that opens a match of `category` to `out`.
pub fn open_marker_into(out: &mut String, category: Category, titled: bool)
    ensures
        final(out)@ == old(out)@ + open_marker(category, titled),
{
    let ghost start = out@;
    out.append("<span class=\"entity ");
    out.append(category.style_class());
    out.append("\" data-type=\"");
    out.append(category.tag());
    if titled {
        out.append("\" title=\"");
        out.append(category.tag());
    }
    out.append("\">");
    proof {
        assert(out@ =~= start + open_marker(category, titled));
    }
}

/// Renders `text` with the matches `accepted` marked. The matches must lie
/// in the text and must not overlap.
pub fn render_markup(text: &str, accepted: &Vec<RawMatch>, titled: bool) -> (html: String)
    requires
        all_in_text(text@, accepted@),
        non_overlapping(accepted@),
    ensures
        html@ == render(text@, accepted@, titled),
{
    let mut html = String::new();
    let mut cursor: usize = 0;
    let mut i: usize = 0;
    while i < accepted.len()
        invariant
            i <= accepted@.len(),
            all_in_text(text@, accepted@),
            non_overlapping(accepted@),
            html@ == render_matches(text@, accepted@.take(i as int), titled),
            cursor == cursor_after(accepted@.take(i as int)),
            span_in_text(text@, 0, cursor as int),
        decreases accepted@.len() - i,
    {
        let m = accepted[i];
        proof {
            assert(accepted@.take(i + 1).drop_last() =~= accepted@.take(i as int));
            assert(accepted@.take(i + 1).last() == m);
            if i > 0 {
                assert(accepted@.take(i as int).last() == accepted@[i - 1]);
                assert(accepted@[i - 1].end <= accepted@[i as int].start);
            }
        }
        let ghost before = html@;
        escape_into(&mut html, cut(text, cursor, m.start));
        open_marker_into(&mut html, m.category, titled);
        escape_into(&mut html, cut(text, m.start, m.end));
        html.append("</span>");
        proof {
            assert(html@ =~= before + escape(span_value(text@, cursor as int, m.start as int))
                + open_marker(m.category, titled) + escape(
                span_value(text@, m.start as int, m.end as int),
            ) + close_marker());
        }
        cursor = m.end;
        i += 1;
    }
    proof {
        assert(accepted@.take(i as int) =~= accepted@);
        is_char_boundary_start_end_of_seq(text_bytes(text@));
    }
    escape_into(&mut html, cut(text, cursor, text.as_bytes().len()));
    html
}

} // verus!
