use ggv::commit_node::{write_width, CommitNode};
use ggv::config::{Args, RegenerateConfig};
use ggv::filter::RefFilter;
use ggv::theme::Theme;

const ID: &str = "0123456789abcdef0123456789abcdef01234567";

fn node(message: &str) -> CommitNode {
    CommitNode::new(ID, message, 1000)
}

#[test]
fn filters() {
    let f = RefFilter::from_string("brt");
    assert!(f.should_include_branches());
    assert!(f.should_include_remotes());
    assert!(f.should_include_tags());
    assert!(!f.should_include_head());
    assert!(!f.should_include_stashes());
    let f = RefFilter::from_string("hs?");
    assert!(!f.should_include_branches());
    assert!(!f.should_include_remotes());
    assert!(!f.should_include_tags());
    assert!(f.should_include_head());
    assert!(f.should_include_stashes());
}

#[test]
fn theme_colors() {
    assert_eq!(Theme::default(), Theme::Dark);
    assert_eq!(Theme::Dark.colors().bg, "#0F172A");
    assert_eq!(Theme::Light.colors().bg, "#F8FAFC");
    assert_eq!(Theme::Dark.colors().edge_color, "#475569");
    assert_eq!(Theme::Light.colors().edge_color, "#CBD5E1");
}

#[test]
fn branch_colors() {
    let dark = [
        ("main", ("#059669", "#34D399", "#F0FDF4")),
        ("master", ("#059669", "#34D399", "#F0FDF4")),
        ("develop", ("#7C3AED", "#A78BFA", "#F5F3FF")),
        ("feature/x", ("#2563EB", "#60A5FA", "#EFF6FF")),
        ("release/1", ("#D97706", "#FBBF24", "#FFFBEB")),
        ("hotfix/1", ("#DC2626", "#F87171", "#FEF2F2")),
        ("topic", ("#334155", "#60A5FA", "#E2E8F0")),
    ];
    for (name, colors) in dark {
        assert_eq!(Theme::Dark.branch_colors(name), colors, "{name}");
    }
    let light = [
        ("main", ("#ECFDF5", "#10B981", "#065F46")),
        ("develop", ("#F3E8FF", "#8B5CF6", "#5B21B6")),
        ("feature/x", ("#EFF6FF", "#3B82F6", "#1E40AF")),
        ("release/1", ("#FFF7ED", "#F59E0B", "#92400E")),
        ("hotfix/1", ("#FEF2F2", "#EF4444", "#7F1D1D")),
        ("topic", ("#F8FAFC", "#64748B", "#334155")),
    ];
    for (name, colors) in light {
        assert_eq!(Theme::Light.branch_colors(name), colors, "{name}");
    }
}

#[test]
fn widths() {
    assert_eq!(write_width(10), "1");
    assert_eq!(write_width(15), "1.5");
    assert_eq!(write_width(20), "2");
}

#[test]
fn best_name_of_a_commit() {
    let mut n = node("m");
    assert_eq!(n.best_ref_for_url(), ID);
    n.add_ref("HEAD".to_string());
    assert_eq!(n.best_ref_for_url(), ID);
    n.add_ref("refs/remotes/origin/feature/x".to_string());
    assert_eq!(n.best_ref_for_url(), "feature/x");
    n.add_ref("refs/heads/topic".to_string());
    n.add_ref("refs/heads/main".to_string());
    assert_eq!(n.best_ref_for_url(), "main");
    n.add_tag("refs/tags/v2".to_string());
    n.add_tag("refs/tags/v1".to_string());
    assert_eq!(n.best_ref_for_url(), "v1");
    assert_eq!(n.timestamp(), 1000);
    assert_eq!(n.hash(), ID);
}

#[test]
fn tags_go_in_in_any_order() {
    let mut a = node("");
    let mut b = node("");
    for tag in ["refs/tags/v2", "refs/tags/v10", "refs/tags/v2"] {
        a.add_tag(tag.to_string());
    }
    for tag in ["refs/tags/v10", "refs/tags/v2"] {
        b.add_tag(tag.to_string());
    }
    assert_eq!(a.best_ref_for_url(), "v10");
    assert_eq!(b.best_ref_for_url(), "v10");
    assert_eq!(a.get_dot_node(Theme::Dark), b.get_dot_node(Theme::Dark));
}

#[test]
fn dot_of_a_plain_commit() {
    let n = node("  Say \"hi\"\n\nbody\n");
    assert_eq!(
        n.get_dot_node(Theme::Dark),
        format!(
            "\"{ID}\" [id=\"{ID}\", label=\"0123456\", shape=box, style=\"filled\", color=\"{}\", fillcolor=\"{}\", fontname=\"Arial\", fontsize=9, fontcolor=\"{}\", penwidth=1, width=0.9, height=0.4, tooltip=\"Say \\\"hi\\\"\\n\\nbody\"]",
            Theme::Dark.colors().plain_border,
            Theme::Dark.colors().plain_fill,
            Theme::Dark.colors().plain_font,
        )
    );
}

#[test]
fn dot_of_a_branch_tip() {
    let mut n = node("");
    n.add_ref("refs/heads/main".to_string());
    n.add_ref("refs/remotes/origin/main".to_string());
    n.add_ref("refs/remotes/backup/main".to_string());
    n.add_ref("HEAD".to_string());
    n.add_tag("refs/tags/v1".to_string());
    n.set_tip(true);
    n.set_current_checkout(true);
    n.set_branch_readme("About\nthis".to_string());
    assert_eq!(
        n.get_dot_node(Theme::Dark),
        format!(
            "\"{ID}\" [id=\"{ID}~L~main~R~backup/main,origin/main~T~v1\", label=\"CURRENT\\nmain\\nbackup/main\\norigin/main\\nHEAD\\nv1\\n📝\", shape=box, style=\"rounded,filled\", color=\"#34D399\", fillcolor=\"#059669\", fontname=\"Arial\", fontsize=9, fontcolor=\"#F0FDF4\", penwidth=2, width=0.9, height=0.4, tooltip=\"About\\nthis\"]"
        )
    );
}

#[test]
fn dot_of_a_tag() {
    let mut n = node("");
    n.add_tag("refs/tags/v1".to_string());
    let c = Theme::Light.colors();
    let dot = n.get_dot_node(Theme::Light);
    assert!(dot.contains("style=\"dashed,filled\""));
    assert!(dot.contains("fontsize=8"));
    assert!(dot.contains(&format!("color=\"{}\"", c.tag_border)));
    assert!(dot.contains("label=\"v1\""));
    assert!(!dot.contains("tooltip"));
}

#[test]
fn dot_of_another_ref() {
    let mut n = node("");
    n.add_ref("stash@{0}".to_string());
    n.set_stash();
    assert!(n.stashed());
    let dot = n.get_dot_node(Theme::Dark);
    assert!(dot.contains("label=\"stash@{0}\""));
    assert!(dot.contains(&format!("fillcolor=\"{}\"", Theme::Dark.colors().other_fill)));
}

#[test]
fn node_ids_split_at_tildes() {
    let mut n = node("");
    n.add_ref("refs/heads/a".to_string());
    n.add_ref("refs/heads/b".to_string());
    let dot = n.get_dot_node(Theme::Dark);
    let id = dot.split("id=\"").nth(1).unwrap().split('"').next().unwrap();
    let parts: Vec<&str> = id.split('~').collect();
    assert_eq!(parts, [ID, "L", "a,b"]);
}

#[test]
fn commits_compare_by_id_and_by_time() {
    let a = CommitNode::new("aaaaaaa", "x", 1);
    let b = CommitNode::new("aaaaaaa", "y", 2);
    let c = CommitNode::new("ccccccc", "x", 3);
    assert!(a == b);
    assert!(a != c);
    assert!(a < c);
    assert!(c > b);
}

#[test]
fn default_options() {
    let a = Args::default();
    assert_eq!(a.repo_path, ".");
    assert_eq!(a.filter, "brt");
    assert_eq!(a.lang, "de-DE");
    assert_eq!(a.splines, "auto");
    assert_eq!(a.max_diff_files, 100);
    assert_eq!(a.web_port, 0);
    assert_eq!(a.theme, Theme::Dark);
    assert!(a.output.is_none() && a.from.is_none() && a.gia_prompt.is_none());
    assert!(!a.no_show && !a.no_fetch && !a.current_branch && !a.gia_audio && !a.stats);
}

#[test]
fn address_of_the_server_when_regenerating() {
    let mut c = RegenerateConfig {
        repo_path: ".".to_string(),
        dot_path: "x.dot".to_string(),
        filter: "b".to_string(),
        gitlab_url: None,
        from_commit: None,
        theme: Theme::Dark,
        current_branch_only: false,
        no_fetch: true,
        keep_dot: false,
        web_server_url: String::new(),
    };
    assert_eq!(c.ws_url(), None);
    c.web_server_url = "http://[::1]:1".to_string();
    assert_eq!(c.ws_url(), Some("http://[::1]:1"));
}
