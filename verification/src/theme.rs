//! The two color themes.

use vstd::prelude::*;

use crate::text;
use crate::text::{begins_with, same_text};

verus! {

/// A color theme.
#[derive(Clone, Copy, Debug, PartialEq, Eq, Structural)]
pub enum Theme {
    Dark,
    Light,
}

impl Default for Theme {
    /// The dark theme.
    fn default() -> (r: Self)
        ensures
            r == Theme::Dark,
    {
        Theme::Dark
    }
}

/// The colors of a theme. Pen widths are in tenths of a point.
#[derive(Clone, Copy, Debug)]
pub struct ThemeColors {
    pub bg: &'static str,
    pub node_default_fill: &'static str,
    pub node_default_border: &'static str,
    pub node_default_font: &'static str,
    pub edge_color: &'static str,
    pub plain_fill: &'static str,
    pub plain_border: &'static str,
    pub plain_font: &'static str,
    pub plain_current_fill: &'static str,
    pub plain_current_border: &'static str,
    pub plain_current_font: &'static str,
    pub tag_fill: &'static str,
    pub tag_border: &'static str,
    pub tag_font: &'static str,
    pub tag_penwidth: u32,
    pub other_fill: &'static str,
    pub other_border: &'static str,
    pub other_font: &'static str,
    pub cell_border_color: &'static str,
    pub cell_bgcolor: &'static str,
    pub cell_font_color: &'static str,
}

/// The colors of each theme.
pub open spec fn theme_colors(theme: Theme) -> ThemeColors {
    match theme {
        Theme::Dark => ThemeColors {
            bg: "#0F172A",
            node_default_fill: "#1E293B",
            node_default_border: "#475569",
            node_default_font: "#E2E8F0",
            edge_color: "#475569",
            plain_fill: "#1E293B",
            plain_border: "#475569",
            plain_font: "#94A3B8",
            plain_current_fill: "#334155",
            plain_current_border: "#F8FAFC",
            plain_current_font: "#F8FAFC",
            tag_fill: "#0F172A",
            tag_border: "#94A3B8",
            tag_font: "#CBD5E1",
            tag_penwidth: 10,
            other_fill: "#334155",
            other_border: "#64748B",
            other_font: "#CBD5E1",
            cell_border_color: "#334155",
            cell_bgcolor: "#1E293B",
            cell_font_color: "#94A3B8",
        },
        Theme::Light => ThemeColors {
            bg: "#F8FAFC",
            node_default_fill: "#FFFFFF",
            node_default_border: "#E2E8F0",
            node_default_font: "#334155",
            edge_color: "#CBD5E1",
            plain_fill: "#FFFFFF",
            plain_border: "#E2E8F0",
            plain_font: "#64748B",
            plain_current_fill: "#F1F5F9",
            plain_current_border: "#0F172A",
            plain_current_font: "#0F172A",
            tag_fill: "transparent",
            tag_border: "#94A3B8",
            tag_font: "#475569",
            tag_penwidth: 15,
            other_fill: "#F8FAFC",
            other_border: "#64748B",
            other_font: "#334155",
            cell_border_color: "#E2E8F0",
            cell_bgcolor: "#F8FAFC",
            cell_font_color: "#64748B",
        },
    }
}

/// The kinds of branches that have colors of their own.
#[derive(Clone, Copy, Debug, PartialEq, Eq, Structural)]
pub enum BranchKind {
    Main,
    Develop,
    Feature,
    Release,
    Hotfix,
    Other,
}

/// The kind of a branch, by its name.
pub open spec fn branch_kind(name: Seq<char>) -> BranchKind {
    if name == "main"@ || name == "master"@ {
        BranchKind::Main
    } else if name == "develop"@ {
        BranchKind::Develop
    } else if text::starts_with(name, "feature/"@) {
        BranchKind::Feature
    } else if text::starts_with(name, "release/"@) {
        BranchKind::Release
    } else if text::starts_with(name, "hotfix/"@) {
        BranchKind::Hotfix
    } else {
        BranchKind::Other
    }
}

/// The fill, border and font colors of each kind of branch in each theme.
pub open spec fn kind_colors(theme: Theme, kind: BranchKind) -> (
    &'static str,
    &'static str,
    &'static str,
) {
    match theme {
        Theme::Dark => match kind {
            BranchKind::Main => ("#059669", "#34D399", "#F0FDF4"),
            BranchKind::Develop => ("#7C3AED", "#A78BFA", "#F5F3FF"),
            BranchKind::Feature => ("#2563EB", "#60A5FA", "#EFF6FF"),
            BranchKind::Release => ("#D97706", "#FBBF24", "#FFFBEB"),
            BranchKind::Hotfix => ("#DC2626", "#F87171", "#FEF2F2"),
            BranchKind::Other => ("#334155", "#60A5FA", "#E2E8F0"),
        },
        Theme::Light => match kind {
            BranchKind::Main => ("#ECFDF5", "#10B981", "#065F46"),
            BranchKind::Develop => ("#F3E8FF", "#8B5CF6", "#5B21B6"),
            BranchKind::Feature => ("#EFF6FF", "#3B82F6", "#1E40AF"),
            BranchKind::Release => ("#FFF7ED", "#F59E0B", "#92400E"),
            BranchKind::Hotfix => ("#FEF2F2", "#EF4444", "#7F1D1D"),
            BranchKind::Other => ("#F8FAFC", "#64748B", "#334155"),
        },
    }
}

/// The kind of a branch, by its name.
pub fn kind_of_branch(name: &str) -> (r: BranchKind)
    ensures
        r == branch_kind(name@),
{
    if same_text(name, "main") || same_text(name, "master") {
        BranchKind::Main
    } else if same_text(name, "develop") {
        BranchKind::Develop
    } else if begins_with(name, "feature/") {
        BranchKind::Feature
    } else if begins_with(name, "release/") {
        BranchKind::Release
    } else if begins_with(name, "hotfix/") {
        BranchKind::Hotfix
    } else {
        BranchKind::Other
    }
}

impl Theme {
    /// The colors of the theme.
    pub fn colors(self) -> (r: ThemeColors)
        ensures
            r == theme_colors(self),
    {
        match self {
            Theme::Dark => ThemeColors {
                bg: "#0F172A",
                node_default_fill: "#1E293B",
                node_default_border: "#475569",
                node_default_font: "#E2E8F0",
                edge_color: "#475569",
                plain_fill: "#1E293B",
                plain_border: "#475569",
                plain_font: "#94A3B8",
                plain_current_fill: "#334155",
                plain_current_border: "#F8FAFC",
                plain_current_font: "#F8FAFC",
                tag_fill: "#0F172A",
                tag_border: "#94A3B8",
                tag_font: "#CBD5E1",
                tag_penwidth: 10,
                other_fill: "#334155",
                other_border: "#64748B",
                other_font: "#CBD5E1",
                cell_border_color: "#334155",
                cell_bgcolor: "#1E293B",
                cell_font_color: "#94A3B8",
            },
            Theme::Light => ThemeColors {
                bg: "#F8FAFC",
                node_default_fill: "#FFFFFF",
                node_default_border: "#E2E8F0",
                node_default_font: "#334155",
                edge_color: "#CBD5E1",
                plain_fill: "#FFFFFF",
                plain_border: "#E2E8F0",
                plain_font: "#64748B",
                plain_current_fill: "#F1F5F9",
                plain_current_border: "#0F172A",
                plain_current_font: "#0F172A",
                tag_fill: "transparent",
                tag_border: "#94A3B8",
                tag_font: "#475569",
                tag_penwidth: 15,
                other_fill: "#F8FAFC",
                other_border: "#64748B",
                other_font: "#334155",
                cell_border_color: "#E2E8F0",
                cell_bgcolor: "#F8FAFC",
                cell_font_color: "#64748B",
            },
        }
    }

    /// The fill, border and font colors for a branch name.
    pub fn branch_colors(self, branch_name: &str) -> (r: (
        &'static str,
        &'static str,
        &'static str,
    ))
        ensures
            r == kind_colors(self, branch_kind(branch_name@)),
    {
        let kind = kind_of_branch(branch_name);
        match self {
            Theme::Dark => match kind {
                BranchKind::Main => ("#059669", "#34D399", "#F0FDF4"),
                BranchKind::Develop => ("#7C3AED", "#A78BFA", "#F5F3FF"),
                BranchKind::Feature => ("#2563EB", "#60A5FA", "#EFF6FF"),
                BranchKind::Release => ("#D97706", "#FBBF24", "#FFFBEB"),
                BranchKind::Hotfix => ("#DC2626", "#F87171", "#FEF2F2"),
                BranchKind::Other => ("#334155", "#60A5FA", "#E2E8F0"),
            },
            Theme::Light => match kind {
                BranchKind::Main => ("#ECFDF5", "#10B981", "#065F46"),
                BranchKind::Develop => ("#F3E8FF", "#8B5CF6", "#5B21B6"),
                BranchKind::Feature => ("#EFF6FF", "#3B82F6", "#1E40AF"),
                BranchKind::Release => ("#FFF7ED", "#F59E0B", "#92400E"),
                BranchKind::Hotfix => ("#FEF2F2", "#EF4444", "#7F1D1D"),
                BranchKind::Other => ("#F8FAFC", "#64748B", "#334155"),
            },
        }
    }
}

} // verus!
