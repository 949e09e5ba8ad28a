//! Styled text as plain data: what a front end needs to paint a line, with
//! colours named by their role rather than by a terminal's palette.

use vstd::prelude::*;
use vstd::string::*;

verus! {

/// The part a colour plays on screen.
#[derive(Clone, Copy, Debug, PartialEq, Eq, Structural)]
pub enum ColorRole {
    /// An ordinary dependency; a ticked box.
    Success,
    /// A development dependency.
    Info,
    /// A build dependency.
    Accent,
    /// A dependency bound to a target; a field's label.
    Highlight,
    /// Anything of little weight: an unknown kind, an empty box, a placeholder.
    Muted,
    /// Something to act on: a newer version, a section title.
    Warning,
    /// The title of the list of enabled features.
    Heading,
    /// Text that stands out from its line.
    Bright,
    /// Text on a filled background.
    Ink,
}

/// How a piece of text is painted.
#[derive(Clone, Copy, Debug, PartialEq, Eq)]
pub struct Style {
    pub fg: Option<ColorRole>,
    pub bg: Option<ColorRole>,
    pub bold: bool,
}

impl Style {
    /// The terminal's own colours, regular weight.
    pub open spec fn spec_plain() -> Style {
        Style { fg: None, bg: None, bold: false }
    }

    /// The given foreground, regular weight.
    pub open spec fn spec_fg(role: ColorRole) -> Style {
        Style { fg: Some(role), bg: None, bold: false }
    }

    /// The given foreground, bold.
    pub open spec fn spec_bold(role: ColorRole) -> Style {
        Style { fg: Some(role), bg: None, bold: true }
    }

    /// The given foreground on the given background.
    pub open spec fn spec_on(fg: ColorRole, bg: ColorRole) -> Style {
        Style { fg: Some(fg), bg: Some(bg), bold: false }
    }

    #[verifier::when_used_as_spec(spec_plain)]
    pub fn plain() -> (r: Style)
        ensures
            r == Style::spec_plain(),
    {
        Style { fg: None, bg: None, bold: false }
    }

    #[verifier::when_used_as_spec(spec_fg)]
    pub fn fg(role: ColorRole) -> (r: Style)
        ensures
            r == Style::spec_fg(role),
    {
        Style { fg: Some(role), bg: None, bold: false }
    }

    #[verifier::when_used_as_spec(spec_bold)]
    pub fn bold(role: ColorRole) -> (r: Style)
        ensures
            r == Style::spec_bold(role),
    {
        Style { fg: Some(role), bg: None, bold: true }
    }

    #[verifier::when_used_as_spec(spec_on)]
    pub fn on(fg: ColorRole, bg: ColorRole) -> (r: Style)
        ensures
            r == Style::spec_on(fg, bg),
    {
        Style { fg: Some(fg), bg: Some(bg), bold: false }
    }
}

/// A run of text in one style.
#[derive(Clone, Debug, PartialEq, Eq)]
pub struct Span {
    pub text: String,
    pub style: Style,
}

/// What a span holds, as a value of the logic.
pub struct SpanView {
    pub text: Seq<char>,
    pub style: Style,
}

impl View for Span {
    type V = SpanView;

    open spec fn view(&self) -> SpanView {
        SpanView { text: self.text@, style: self.style }
    }
}

/// The span with this text and style.
pub open spec fn span(text: Seq<char>, style: Style) -> SpanView {
    SpanView { text, style }
}

impl Span {
    /// Unstyled text.
    pub fn raw(text: &str) -> (r: Span)
        ensures
            r@ == span(text@, Style::plain()),
    {
        Span { text: String::from_str(text), style: Style::plain() }
    }

    /// Text in the given style.
    pub fn styled(text: &str, style: Style) -> (r: Span)
        ensures
            r@ == span(text@, style),
    {
        Span { text: String::from_str(text), style }
    }
}

/// One line of the screen: spans from left to right.
#[derive(Clone, Debug, PartialEq, Eq)]
pub struct Line {
    pub spans: Vec<Span>,
}

impl View for Line {
    type V = Seq<SpanView>;

    open spec fn view(&self) -> Seq<SpanView> {
        self.spans@.map_values(|s: Span| s@)
    }
}

/// The characters of a line, styles aside.
pub open spec fn line_text(spans: Seq<SpanView>) -> Seq<char>
    decreases spans.len(),
{
    if spans.len() == 0 {
        Seq::empty()
    } else {
        line_text(spans.drop_last()) + spans.last().text
    }
}

/// What a list of lines holds.
pub open spec fn lines_view(lines: Seq<Line>) -> Seq<Seq<SpanView>> {
    lines.map_values(|l: Line| l@)
}

impl Line {
    /// The line made of the given spans.
    pub fn from_spans(spans: Vec<Span>) -> (r: Line)
        ensures
            r@ == spans@.map_values(|s: Span| s@),
    {
        Line { spans }
    }

    /// The line made of one span.
    pub fn single(text: &str, style: Style) -> (r: Line)
        ensures
            r@ == seq![span(text@, style)],
    {
        let mut spans: Vec<Span> = Vec::new();
        spans.push(Span::styled(text, style));
        let r = Line { spans };
        proof {
            assert(r@ =~= seq![span(text@, style)]);
        }
        r
    }

    /// The line made of two spans.
    pub fn pair(first: &str, first_style: Style, second: &str, second_style: Style) -> (r: Line)
        ensures
            r@ == seq![span(first@, first_style), span(second@, second_style)],
    {
        let mut spans: Vec<Span> = Vec::new();
        spans.push(Span::styled(first, first_style));
        spans.push(Span::styled(second, second_style));
        let r = Line { spans };
        proof {
            assert(r@ =~= seq![span(first@, first_style), span(second@, second_style)]);
        }
        r
    }

    /// The line without any text.
    pub fn blank() -> (r: Line)
        ensures
            r@ == Seq::<SpanView>::empty(),
    {
        let r = Line { spans: Vec::new() };
        proof {
            assert(r@ =~= Seq::<SpanView>::empty());
        }
        r
    }

    /// The characters of the line, styles aside.
    pub fn text(&self) -> (r: String)
        ensures
            r@ == line_text(self@),
    {
        let mut out = String::new();
        let mut i: usize = 0;
        proof {
            assert(self@.take(0) =~= Seq::empty());
        }
        while i < self.spans.len()
            invariant
                i <= self.spans.len(),
                out@ == line_text(self@.take(i as int)),
            decreases self.spans.len() - i,
        {
            proof {
                assert(self@.take(i + 1).drop_last() =~= self@.take(i as int));
                assert(self@.take(i + 1).last() == self.spans[i as int]@);
            }
            out.append(self.spans[i].text.as_str());
            i += 1;
        }
        proof {
            assert(self@.take(i as int) =~= self@);
        }
        out
    }
}

} // verus!
