//! The home screen as data: the list on the left, the details of the
//! selected dependency on the right, and the legend at the bottom.

use crate::app::App;
use crate::dependency::{kind_role, Dependency, DependencyView};
use crate::styled::{lines_view, span, ColorRole, Line, Span, SpanView, Style};
use vstd::prelude::*;

verus! {

/// What a front end paints.
#[derive(Debug, Clone, PartialEq, Eq)]
pub struct Screen {
    /// The summary lines, one for each dependency.
    pub list: Vec<Line>,
    /// The line of the list that is selected.
    pub selected: Option<usize>,
    /// The details of the selected dependency.
    pub details: Vec<Line>,
    /// The legend of the keys.
    pub footer: Line,
}

/// The summary line of each dependency, in the order of the list.
pub open spec fn list_lines(items: Seq<Dependency>) -> Seq<Seq<SpanView>> {
    Seq::new(items.len(), |i: int| items[i]@.compact_spans())
}

/// The details pane: name, version and kind of the selected dependency, a
/// blank line, a title and the feature breakdown; one line that says so
/// where nothing is selected.
pub open spec fn detail_lines(selected: Option<DependencyView>) -> Seq<Seq<SpanView>> {
    match selected {
        Some(d) => seq![
            seq![span("Name:    "@, Style::fg(ColorRole::Highlight)), span(d.name, Style::plain())],
            seq![
                span("Version: "@, Style::fg(ColorRole::Highlight)),
                span(d.version, Style::plain()),
            ],
            seq![
                span("Kind:    "@, Style::fg(ColorRole::Highlight)),
                span(d.kind, Style::fg(kind_role(d.kind))),
            ],
            Seq::<SpanView>::empty(),
            seq![span("Features:"@, Style::bold(ColorRole::Warning))],
        ] + d.feature_lines(),
        None => seq![seq![span("No dependency selected"@, Style::fg(ColorRole::Muted))]],
    }
}

/// The legend. It names the keys that quit and step, and three bindings
/// that the session does not have: Space, `s`, and `u` as an update (`u`
/// steps back).
pub open spec fn legend() -> Seq<SpanView> {
    seq![
        span(" q/Esc "@, Style::on(ColorRole::Ink, ColorRole::Bright)),
        span(" Quit  "@, Style::plain()),
        span(" \u{2191}/k "@, Style::on(ColorRole::Ink, ColorRole::Bright)),
        span(" Prev  "@, Style::plain()),
        span(" \u{2193}/j "@, Style::on(ColorRole::Ink, ColorRole::Bright)),
        span(" Next  "@, Style::plain()),
        span(" Space "@, Style::on(ColorRole::Ink, ColorRole::Highlight)),
        span(" Toggle features  "@, Style::plain()),
        span(" s "@, Style::on(ColorRole::Ink, ColorRole::Success)),
        span(" Search  "@, Style::plain()),
        span(" u "@, Style::on(ColorRole::Ink, ColorRole::Warning)),
        span(" Update deps "@, Style::plain()),
    ]
}

/// The selected dependency, as a value of the logic.
pub open spec fn selected_view(app: App) -> Option<DependencyView> {
    match app.cursor() {
        Some(i) => Some(app.items()[i]@),
        None => None,
    }
}

/// The whole screen for the given state.
pub fn draw(app: &App) -> (r: Screen)
    ensures
        lines_view(r.list@) == list_lines(app.items()),
        match r.selected {
            Some(i) => app.cursor() == Some(i as int),
            None => app.cursor() is None,
        },
        lines_view(r.details@) == detail_lines(selected_view(*app)),
        r.footer@ == legend(),
{
    Screen {
        list: draw_left_list(app),
        selected: app.selected(),
        details: draw_right_details(app),
        footer: draw_footer(),
    }
}

/// The summary lines of the list.
pub fn draw_left_list(app: &App) -> (r: Vec<Line>)
    ensures
        lines_view(r@) == list_lines(app.items()),
{
    let items = app.dependencies();
    let mut lines: Vec<Line> = Vec::new();
    let mut i: usize = 0;
    while i < items.len()
        invariant
            i <= items.len(),
            items@ == app.items(),
            lines@.len() == i,
            forall|k: int| 0 <= k < i ==> (#[trigger] lines@[k])@ == items@[k]@.compact_spans(),
        decreases items.len() - i,
    {
        lines.push(items[i].compact_line());
        i += 1;
    }
    proof {
        assert(lines_view(lines@) =~= list_lines(app.items()));
    }
    lines
}

/// The details pane for the selected dependency.
pub fn draw_right_details(app: &App) -> (r: Vec<Line>)
    ensures
        lines_view(r@) == detail_lines(selected_view(*app)),
{
    let mut lines: Vec<Line> = Vec::new();
    match app.selected_dep() {
        Some(dep) => {
            let label = Style::fg(ColorRole::Highlight);
            lines.push(Line::pair("Name:    ", label, dep.name.as_str(), Style::plain()));
            lines.push(Line::pair("Version: ", label, dep.version.as_str(), Style::plain()));
            lines.push(
                Line::pair("Kind:    ", label, dep.kind.as_str(), Style::fg(dep.kind_color())),
            );
            lines.push(Line::blank());
            lines.push(Line::single("Features:", Style::bold(ColorRole::Warning)));
            let mut features = dep.features_lines();
            let ghost head = lines_view(lines@);
            let ghost tail = lines_view(features@);
            lines.append(&mut features);
            proof {
                assert(lines_view(lines@) =~= head + tail);
                assert(head =~= detail_lines(Some(dep@)).take(5));
                assert(detail_lines(Some(dep@)) =~= detail_lines(Some(dep@)).take(5) + tail);
            }
        },
        None => {
            lines.push(Line::single("No dependency selected", Style::fg(ColorRole::Muted)));
            proof {
                assert(lines_view(lines@) =~= detail_lines(None));
            }
        },
    }
    lines
}

/// The legend of the keys.
pub fn draw_footer() -> (r: Line)
    ensures
        r@ == legend(),
{
    let key = Style::on(ColorRole::Ink, ColorRole::Bright);
    let mut spans: Vec<Span> = Vec::new();
    spans.push(Span::styled(" q/Esc ", key));
    spans.push(Span::raw(" Quit  "));
    spans.push(Span::styled(" \u{2191}/k ", key));
    spans.push(Span::raw(" Prev  "));
    spans.push(Span::styled(" \u{2193}/j ", key));
    spans.push(Span::raw(" Next  "));
    spans.push(Span::styled(" Space ", Style::on(ColorRole::Ink, ColorRole::Highlight)));
    spans.push(Span::raw(" Toggle features  "));
    spans.push(Span::styled(" s ", Style::on(ColorRole::Ink, ColorRole::Success)));
    spans.push(Span::raw(" Search  "));
    spans.push(Span::styled(" u ", Style::on(ColorRole::Ink, ColorRole::Warning)));
    spans.push(Span::raw(" Update deps "));
    let r = Line::from_spans(spans);
    proof {
        assert(r@ =~= legend());
    }
    r
}

} // verus!
