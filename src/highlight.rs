//! Styling of a page line for display: headings, options and argument
//! placeholders are told apart by the shape of their words.
use vstd::prelude::*;

use crate::text::{split_words, words_of};
use crate::trie::views;

verus! {

/// How a piece of a displayed line is drawn.
#[derive(Clone, Copy, Debug, PartialEq, Eq, Structural)]
pub enum WordStyle {
    /// As it is.
    Plain,
    /// A first word that ends in `:`.
    Heading,
    /// A first word that starts with `-`.
    LeadingOption,
    /// A later word that starts with `-`.
    Option,
    /// A word in square brackets.
    Optional,
    /// A word in angle brackets.
    Argument,
}

/// A piece of a line and its style.
pub struct StyledSpan {
    pub text: String,
    pub style: WordStyle,
}

/// The style of a line's first word.
pub open spec fn first_style(w: Seq<char>) -> WordStyle {
    if w.len() > 0 && w.last() == ':' {
        WordStyle::Heading
    } else if w.len() > 0 && w[0] == '-' {
        WordStyle::LeadingOption
    } else {
        WordStyle::Plain
    }
}

/// The style of a later word.
pub open spec fn word_style(w: Seq<char>) -> WordStyle {
    if w.len() > 0 && w[0] == '-' {
        WordStyle::Option
    } else if w.len() > 0 && w[0] == '[' && w.last() == ']' {
        WordStyle::Optional
    } else if w.len() > 0 && w[0] == '<' && w.last() == '>' {
        WordStyle::Argument
    } else {
        WordStyle::Plain
    }
}

/// Each later word, after a plain single space.
pub open spec fn rest_spans(ws: Seq<Seq<char>>) -> Seq<(Seq<char>, WordStyle)>
    decreases ws.len(),
{
    if ws.len() == 0 {
        Seq::empty()
    } else {
        seq![(" "@, WordStyle::Plain), (ws[0], word_style(ws[0]))] + rest_spans(ws.drop_first())
    }
}

/// A line as drawn: its words, one space apart, each styled; a line with
/// no words is drawn as it is.
pub open spec fn highlight_spec(line: Seq<char>) -> Seq<(Seq<char>, WordStyle)> {
    let ws = words_of(line);
    if ws.len() == 0 {
        seq![(line, WordStyle::Plain)]
    } else {
        seq![(ws[0], first_style(ws[0]))] + rest_spans(ws.drop_first())
    }
}

/// The text and style of each span.
pub open spec fn span_views(v: Seq<StyledSpan>) -> Seq<(Seq<char>, WordStyle)> {
    v.map_values(|s: StyledSpan| (s.text@, s.style))
}

fn starts_with_char(w: &str, c: char) -> (r: bool)
    ensures
        r == (w@.len() > 0 && w@[0] == c),
{
    let cs = crate::text::chars_of(w);
    cs.len() > 0 && cs[0] == c
}

fn ends_with_char(w: &str, c: char) -> (r: bool)
    ensures
        r == (w@.len() > 0 && w@.last() == c),
{
    let cs = crate::text::chars_of(w);
    cs.len() > 0 && cs[cs.len() - 1] == c
}

/// Splits a page line into styled spans for display.
pub fn syntax_highlight(line: &str) -> (r: Vec<StyledSpan>)
    ensures
        span_views(r@) == highlight_spec(line@),
{
    let words = split_words(line);
    let mut r: Vec<StyledSpan> = Vec::new();
    if words.len() == 0 {
        r.push(StyledSpan { text: String::from_str(line), style: WordStyle::Plain });
        assert(span_views(r@) =~= highlight_spec(line@));
        return r;
    }
    let ghost ws = views(words@);
    let first = words[0].as_str();
    let style = if ends_with_char(first, ':') {
        WordStyle::Heading
    } else if starts_with_char(first, '-') {
        WordStyle::LeadingOption
    } else {
        WordStyle::Plain
    };
    r.push(StyledSpan { text: words[0].clone(), style });
    assert(ws.subrange(1, ws.len() as int) =~= ws.drop_first());
    assert(span_views(r@) + rest_spans(ws.subrange(1, ws.len() as int)) =~= highlight_spec(
        line@,
    ));
    let mut i: usize = 1;
    while i < words.len()
        invariant
            1 <= i <= words.len(),
            ws == views(words@),
            span_views(r@) + rest_spans(ws.subrange(i as int, ws.len() as int)) == highlight_spec(
                line@,
            ),
        decreases words.len() - i,
    {
        let w = words[i].as_str();
        let style = if starts_with_char(w, '-') {
            WordStyle::Option
        } else if starts_with_char(w, '[') && ends_with_char(w, ']') {
            WordStyle::Optional
        } else if starts_with_char(w, '<') && ends_with_char(w, '>') {
            WordStyle::Argument
        } else {
            WordStyle::Plain
        };
        let ghost before = span_views(r@);
        r.push(StyledSpan { text: String::from_str(" "), style: WordStyle::Plain });
        r.push(StyledSpan { text: words[i].clone(), style });
        proof {
            let rest = ws.subrange(i as int, ws.len() as int);
            assert(rest.drop_first() =~= ws.subrange(i + 1, ws.len() as int));
            assert(span_views(r@) =~= before + seq![
                (" "@, WordStyle::Plain),
                (rest[0], word_style(rest[0])),
            ]);
        }
        i = i + 1;
    }
    assert(ws.subrange(i as int, ws.len() as int) =~= Seq::<Seq<char>>::empty());
    assert(span_views(r@) =~= span_views(r@) + Seq::<(Seq<char>, WordStyle)>::empty());
    r
}

} // verus!
