//! The colors of the web server's pages.

use vstd::prelude::*;

use crate::theme::Theme;

verus! {

/// The colors of a page.
#[derive(Clone, Copy, Debug)]
pub struct Palette {
    pub bg: &'static str,
    pub card_bg: &'static str,
    pub card_border: &'static str,
    pub card_hover: &'static str,
    pub text: &'static str,
    pub sub: &'static str,
    pub dim: &'static str,
    pub note: &'static str,
    pub h1: &'static str,
    pub sha_bg: &'static str,
    pub sha_fg: &'static str,
    pub hash_bg: &'static str,
    pub hash_fg: &'static str,
    pub ref_head_bg: &'static str,
    pub ref_head_fg: &'static str,
    pub ref_branch_bg: &'static str,
    pub ref_branch_fg: &'static str,
    pub ref_remote_bg: &'static str,
    pub ref_remote_fg: &'static str,
    pub ref_tag_bg: &'static str,
    pub ref_tag_fg: &'static str,
    pub section_border: &'static str,
}

/// The colors of the pages under each theme.
pub open spec fn palette(theme: Theme) -> Palette {
    match theme {
        Theme::Dark => Palette {
            bg: "#0f1117",
            card_bg: "#1a1f2e",
            card_border: "#2d3748",
            card_hover: "#4a5568",
            text: "#e2e8f0",
            sub: "#718096",
            dim: "#4a5568",
            note: "#718096",
            h1: "#63b3ed",
            sha_bg: "#2d3748",
            sha_fg: "#a0aec0",
            hash_bg: "#1e3a5f",
            hash_fg: "#63b3ed",
            ref_head_bg: "#744210",
            ref_head_fg: "#fbd38d",
            ref_branch_bg: "#1e3a5f",
            ref_branch_fg: "#63b3ed",
            ref_remote_bg: "#1c4532",
            ref_remote_fg: "#68d391",
            ref_tag_bg: "#521b41",
            ref_tag_fg: "#fbb6ce",
            section_border: "#2d3748",
        },
        Theme::Light => Palette {
            bg: "#f8fafc",
            card_bg: "#ffffff",
            card_border: "#e2e8f0",
            card_hover: "#cbd5e1",
            text: "#1e293b",
            sub: "#475569",
            dim: "#94a3b8",
            note: "#64748b",
            h1: "#2563eb",
            sha_bg: "#f1f5f9",
            sha_fg: "#64748b",
            hash_bg: "#eff6ff",
            hash_fg: "#1d4ed8",
            ref_head_bg: "#fef3c7",
            ref_head_fg: "#92400e",
            ref_branch_bg: "#eff6ff",
            ref_branch_fg: "#1e40af",
            ref_remote_bg: "#ecfdf5",
            ref_remote_fg: "#065f46",
            ref_tag_bg: "#fdf4ff",
            ref_tag_fg: "#7e22ce",
            section_border: "#e2e8f0",
        },
    }
}

/// The colors of the pages under a theme.
pub fn page_colors(theme: Theme) -> (r: Palette)
    ensures
        r == palette(theme),
{
    match theme {
        Theme::Dark => Palette {
            bg: "#0f1117",
            card_bg: "#1a1f2e",
            card_border: "#2d3748",
            card_hover: "#4a5568",
            text: "#e2e8f0",
            sub: "#718096",
            dim: "#4a5568",
            note: "#718096",
            h1: "#63b3ed",
            sha_bg: "#2d3748",
            sha_fg: "#a0aec0",
            hash_bg: "#1e3a5f",
            hash_fg: "#63b3ed",
            ref_head_bg: "#744210",
            ref_head_fg: "#fbd38d",
            ref_branch_bg: "#1e3a5f",
            ref_branch_fg: "#63b3ed",
            ref_remote_bg: "#1c4532",
            ref_remote_fg: "#68d391",
            ref_tag_bg: "#521b41",
            ref_tag_fg: "#fbb6ce",
            section_border: "#2d3748",
        },
        Theme::Light => Palette {
            bg: "#f8fafc",
            card_bg: "#ffffff",
            card_border: "#e2e8f0",
            card_hover: "#cbd5e1",
            text: "#1e293b",
            sub: "#475569",
            dim: "#94a3b8",
            note: "#64748b",
            h1: "#2563eb",
            sha_bg: "#f1f5f9",
            sha_fg: "#64748b",
            hash_bg: "#eff6ff",
            hash_fg: "#1d4ed8",
            ref_head_bg: "#fef3c7",
            ref_head_fg: "#92400e",
            ref_branch_bg: "#eff6ff",
            ref_branch_fg: "#1e40af",
            ref_remote_bg: "#ecfdf5",
            ref_remote_fg: "#065f46",
            ref_tag_bg: "#fdf4ff",
            ref_tag_fg: "#7e22ce",
            section_border: "#e2e8f0",
        },
    }
}

} // verus!
