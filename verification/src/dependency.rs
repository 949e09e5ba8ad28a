//! One direct dependency of the root package, and the text derived from it.

use crate::features::{strictly_ascending, texts};
use crate::styled::{span, ColorRole, Line, Span, SpanView, Style};
use crate::text::{has_prefix, pad_right, padded, str_eq};
use vstd::prelude::*;
use vstd::string::*;

verus! {

/// Columns of the name field of a compact line.
pub const NAME_WIDTH: usize = 20;

/// Columns of the version field of a compact line.
pub const VERSION_WIDTH: usize = 12;

/// Columns of the kind field of a compact line.
pub const KIND_WIDTH: usize = 10;

/// A direct dependency of the root package.
#[derive(Debug, Clone, PartialEq, Eq)]
pub struct Dependency {
    /// The name the manifest gives; one name may occur once per kind and target.
    pub name: String,
    /// The greatest version of this name anywhere in the graph.
    pub version: String,
    /// The version of the package that satisfies this edge.
    pub locked_version: Option<String>,
    /// `normal`, `dev`, `build`, `unknown`, or `target(..)` with the target.
    pub kind: String,
    /// The declared features that this edge asks for, ascending.
    pub enabled_features: Vec<String>,
    /// The declared features that this edge does not ask for, ascending.
    pub disabled_features: Vec<String>,
    /// Every feature that the locked package declares, ascending, each once.
    pub all_features: Vec<String>,
}

/// What a dependency holds, as a value of the logic.
pub struct DependencyView {
    pub name: Seq<char>,
    pub version: Seq<char>,
    pub locked_version: Option<Seq<char>>,
    pub kind: Seq<char>,
    pub enabled_features: Seq<Seq<char>>,
    pub disabled_features: Seq<Seq<char>>,
    pub all_features: Seq<Seq<char>>,
}

impl View for Dependency {
    type V = DependencyView;

    open spec fn view(&self) -> DependencyView {
        DependencyView {
            name: self.name@,
            version: self.version@,
            locked_version: match self.locked_version {
                Some(v) => Some(v@),
                None => None,
            },
            kind: self.kind@,
            enabled_features: texts(self.enabled_features@),
            disabled_features: texts(self.disabled_features@),
            all_features: texts(self.all_features@),
        }
    }
}

impl DependencyView {
    /// The enabled and the disabled features are each strictly ascending,
    /// share no entry, and together are the declared features.
    pub open spec fn features_partitioned(self) -> bool {
        &&& strictly_ascending(self.enabled_features)
        &&& strictly_ascending(self.disabled_features)
        &&& forall|f: Seq<char>|
            !(self.enabled_features.contains(f) && self.disabled_features.contains(f))
        &&& forall|f: Seq<char>|
            self.all_features.contains(f) <==> (self.enabled_features.contains(f)
                || self.disabled_features.contains(f))
    }

    /// A version is locked and it is not the greatest one known.
    pub open spec fn has_upgrade(self) -> bool {
        self.locked_version is Some && self.locked_version->0 != self.version
    }

    /// The text of the version field: the locked and the greatest version
    /// around an arrow where they differ, the greatest version alone
    /// otherwise, filled up to the field's width.
    pub open spec fn version_field(self) -> Seq<char> {
        if self.has_upgrade() {
            padded(self.locked_version->0 + " \u{2192} "@ + self.version, VERSION_WIDTH as nat)
        } else {
            padded(self.version, VERSION_WIDTH as nat)
        }
    }

    /// The summary line: name, version and kind in fixed-width fields.
    pub open spec fn compact_spans(self) -> Seq<SpanView> {
        seq![
            span(padded(self.name, NAME_WIDTH as nat), Style::plain()),
            span(
                self.version_field(),
                if self.has_upgrade() {
                    Style::fg(ColorRole::Warning)
                } else {
                    Style::plain()
                },
            ),
            span(padded(self.kind, KIND_WIDTH as nat), Style::fg(kind_role(self.kind))),
        ]
    }

    /// The feature breakdown: a title, the enabled features ticked and a
    /// blank line where any is enabled, then the disabled features unticked;
    /// one placeholder line where no feature is declared at all.
    pub open spec fn feature_lines(self) -> Seq<Seq<SpanView>> {
        if self.enabled_features.len() == 0 && self.disabled_features.len() == 0 {
            seq![placeholder_line()]
        } else if self.enabled_features.len() == 0 {
            self.disabled_features.map_values(|f: Seq<char>| unticked_line(f))
        } else {
            seq![title_line()] + self.enabled_features.map_values(|f: Seq<char>| ticked_line(f))
                + seq![Seq::<SpanView>::empty()] + self.disabled_features.map_values(
                |f: Seq<char>| unticked_line(f),
            )
        }
    }
}

/// The colour role of a kind: `normal`, `dev` and `build` have their own,
/// every `target(..)` has one, and anything else is muted.
pub open spec fn kind_role(kind: Seq<char>) -> ColorRole {
    if kind == "normal"@ {
        ColorRole::Success
    } else if kind == "dev"@ {
        ColorRole::Info
    } else if kind == "build"@ {
        ColorRole::Accent
    } else if "target("@.is_prefix_of(kind) {
        ColorRole::Highlight
    } else {
        ColorRole::Muted
    }
}

/// The title above the enabled features.
pub open spec fn title_line() -> Seq<SpanView> {
    seq![span("Enabled features:"@, Style::bold(ColorRole::Heading))]
}

/// The line of an enabled feature.
pub open spec fn ticked_line(feature: Seq<char>) -> Seq<SpanView> {
    seq![span("[x] "@, Style::fg(ColorRole::Success)), span(feature, Style::fg(ColorRole::Bright))]
}

/// The line of a disabled feature.
pub open spec fn unticked_line(feature: Seq<char>) -> Seq<SpanView> {
    seq![span("[ ] "@, Style::fg(ColorRole::Muted)), span(feature, Style::plain())]
}

/// The line shown where a package declares no feature.
pub open spec fn placeholder_line() -> Seq<SpanView> {
    seq![span("- no features available"@, Style::fg(ColorRole::Muted))]
}

impl Dependency {
    /// The colour role that stands for this dependency's kind.
    pub fn kind_color(&self) -> (r: ColorRole)
        ensures
            r == kind_role(self.kind@),
    {
        let kind = self.kind.as_str();
        if str_eq(kind, "normal") {
            ColorRole::Success
        } else if str_eq(kind, "dev") {
            ColorRole::Info
        } else if str_eq(kind, "build") {
            ColorRole::Accent
        } else if has_prefix(kind, "target(") {
            ColorRole::Highlight
        } else {
            ColorRole::Muted
        }
    }

    /// The summary line of this dependency. The version field carries the
    /// upgrade mark, the arrow and the warning colour, exactly when a version
    /// is locked and differs from the greatest one.
    pub fn compact_line(&self) -> (r: Line)
        ensures
            r@ == self@.compact_spans(),
            r@.len() == 3,
            r@[1].style == Style::fg(ColorRole::Warning) <==> self@.has_upgrade(),
            r@[1].style == Style::plain() <==> !self@.has_upgrade(),
    {
        let upgrade = match &self.locked_version {
            Some(locked) => !str_eq(locked.as_str(), self.version.as_str()),
            None => false,
        };
        let version = match &self.locked_version {
            Some(locked) if upgrade => {
                let mut text = locked.clone();
                text.append(" \u{2192} ");
                text.append(self.version.as_str());
                Span::styled(
                    pad_right(text.as_str(), VERSION_WIDTH).as_str(),
                    Style::fg(ColorRole::Warning),
                )
            },
            _ => Span::raw(pad_right(self.version.as_str(), VERSION_WIDTH).as_str()),
        };
        let mut spans: Vec<Span> = Vec::new();
        spans.push(Span::raw(pad_right(self.name.as_str(), NAME_WIDTH).as_str()));
        spans.push(version);
        spans.push(
            Span::styled(
                pad_right(self.kind.as_str(), KIND_WIDTH).as_str(),
                Style::fg(self.kind_color()),
            ),
        );
        let r = Line::from_spans(spans);
        proof {
            assert(r@ =~= self@.compact_spans());
        }
        r
    }

    /// The feature breakdown of this dependency, line by line.
    pub fn features_lines(&self) -> (r: Vec<Line>)
        ensures
            crate::styled::lines_view(r@) == self@.feature_lines(),
    {
        let mut lines: Vec<Line> = Vec::new();
        let ghost ticked = self@.enabled_features.map_values(|f: Seq<char>| ticked_line(f));
        let ghost unticked = self@.disabled_features.map_values(|f: Seq<char>| unticked_line(f));
        if self.enabled_features.len() == 0 && self.disabled_features.len() == 0 {
            lines.push(Line::single("- no features available", Style::fg(ColorRole::Muted)));
            proof {
                assert(crate::styled::lines_view(lines@) =~= seq![placeholder_line()]);
            }
            return lines;
        }
        if self.enabled_features.len() > 0 {
            lines.push(Line::single("Enabled features:", Style::bold(ColorRole::Heading)));
            let mut i: usize = 0;
            proof {
                assert(crate::styled::lines_view(lines@) =~= seq![title_line()] + ticked.take(0));
            }
            while i < self.enabled_features.len()
                invariant
                    i <= self.enabled_features.len(),
                    ticked == self@.enabled_features.map_values(|f: Seq<char>| ticked_line(f)),
                    crate::styled::lines_view(lines@) == seq![title_line()] + ticked.take(i as int),
                decreases self.enabled_features.len() - i,
            {
                let ghost before = crate::styled::lines_view(lines@);
                lines.push(
                    Line::pair(
                        "[x] ",
                        Style::fg(ColorRole::Success),
                        self.enabled_features[i].as_str(),
                        Style::fg(ColorRole::Bright),
                    ),
                );
                proof {
                    assert(ticked[i as int] == ticked_line(self.enabled_features[i as int]@));
                    assert(crate::styled::lines_view(lines@) =~= before.push(ticked[i as int]));
                    assert(before.push(ticked[i as int]) =~= seq![title_line()] + ticked.take(
                        i + 1,
                    ));
                }
                i += 1;
            }
            let ghost before = crate::styled::lines_view(lines@);
            lines.push(Line::blank());
            proof {
                assert(ticked.take(i as int) =~= ticked);
                assert(crate::styled::lines_view(lines@) =~= before.push(Seq::<SpanView>::empty()));
            }
        }
        let ghost head = crate::styled::lines_view(lines@);
        let mut j: usize = 0;
        proof {
            assert(head =~= head + unticked.take(0));
        }
        while j < self.disabled_features.len()
            invariant
                j <= self.disabled_features.len(),
                unticked == self@.disabled_features.map_values(|f: Seq<char>| unticked_line(f)),
                crate::styled::lines_view(lines@) == head + unticked.take(j as int),
            decreases self.disabled_features.len() - j,
        {
            let ghost before = crate::styled::lines_view(lines@);
            lines.push(
                Line::pair(
                    "[ ] ",
                    Style::fg(ColorRole::Muted),
                    self.disabled_features[j].as_str(),
                    Style::plain(),
                ),
            );
            proof {
                assert(unticked[j as int] == unticked_line(self.disabled_features[j as int]@));
                assert(crate::styled::lines_view(lines@) =~= before.push(unticked[j as int]));
                assert(before.push(unticked[j as int]) =~= head + unticked.take(j + 1));
            }
            j += 1;
        }
        proof {
            assert(unticked.take(j as int) =~= unticked);
            if self.enabled_features.len() == 0 {
                assert(head =~= Seq::empty());
                assert(head + unticked =~= unticked);
            } else {
                assert(head =~= seq![title_line()] + ticked + seq![Seq::<SpanView>::empty()]);
            }
        }
        lines
    }
}

} // verus!
