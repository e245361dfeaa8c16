//! A commit as the graph shows it: its refs and tags, its label, its colors and its DOT node.

use vstd::prelude::*;

use crate::escape;
use crate::escape::{dot_escape, tooltip_escape};
use crate::lines;
use crate::lines::trimmed;
use crate::names;
use crate::names::{insert_pair, NameSet};
use crate::number;
use crate::number::count_text;
use crate::search;
use crate::search::{cut_once, joined};
use crate::text;
use crate::text::{begins_with, take_chars, without_leading, without_prefix};
use crate::theme;
use crate::theme::Theme;

verus! {

/// A commit of the graph.
#[derive(Debug)]
pub struct CommitNode {
    pub id: String,
    short_id: String,
    message: String,
    timestamp: i64,
    tags: NameSet,
    refs: NameSet,
    is_tip: bool,
    branch_readme: Option<String>,
    is_current_checkout: bool,
    pub is_stash: bool,
}

/// What a commit of the graph holds. Tags and refs are in ascending order.
#[verifier::ext_equal]
pub struct NodeView {
    pub id: Seq<char>,
    pub short_id: Seq<char>,
    pub message: Seq<char>,
    pub timestamp: i64,
    pub tags: Seq<Seq<char>>,
    pub refs: Seq<Seq<char>>,
    pub is_tip: bool,
    pub branch_readme: Option<Seq<char>>,
    pub is_current_checkout: bool,
    pub is_stash: bool,
}

impl View for CommitNode {
    type V = NodeView;

    closed spec fn view(&self) -> NodeView {
        NodeView {
            id: self.id@,
            short_id: self.short_id@,
            message: self.message@,
            timestamp: self.timestamp,
            tags: self.tags@,
            refs: self.refs@,
            is_tip: self.is_tip,
            branch_readme: text::opt_view(self.branch_readme),
            is_current_checkout: self.is_current_checkout,
            is_stash: self.is_stash,
        }
    }
}

/// Whether tags and refs stand in ascending order, without repetition.
pub open spec fn in_order(v: NodeView) -> bool {
    names::ascending(v.tags) && names::ascending(v.refs)
}

/// A commit that nothing points at yet.
pub open spec fn bare_node(id: Seq<char>, message: Seq<char>, timestamp: i64) -> NodeView {
    NodeView {
        id,
        short_id: text::first_chars(id, 7),
        message,
        timestamp,
        tags: seq![],
        refs: seq![],
        is_tip: false,
        branch_readme: None,
        is_current_checkout: false,
        is_stash: false,
    }
}

// ---------------------------------------------------------------------------------------------
// Names of a commit
// ---------------------------------------------------------------------------------------------

/// The rest of each ref that begins with `prefix`.
pub open spec fn stripped(refs: Seq<Seq<char>>, prefix: Seq<char>) -> Seq<Seq<char>>
    decreases refs.len(),
{
    if refs.len() == 0 {
        seq![]
    } else {
        let before = stripped(refs.drop_last(), prefix);
        match text::strip_prefix(refs.last(), prefix) {
            Some(name) => before.push(name),
            None => before,
        }
    }
}

/// Each tag without `refs/tags/`.
pub open spec fn tag_names(tags: Seq<Seq<char>>) -> Seq<Seq<char>> {
    Seq::new(tags.len(), |i: int| text::trim_start_matches(tags[i], "refs/tags/"@))
}

/// The branch of a remote-tracking ref: what follows the name of the remote.
pub open spec fn remote_branch(r: Seq<char>) -> Option<Seq<char>> {
    match text::strip_prefix(r, "refs/remotes/"@) {
        Some(rest) => match search::split_once(rest, "/"@) {
            Some(p) => Some(p.1),
            None => None,
        },
        None => None,
    }
}

/// The first name of a local branch among the refs.
pub open spec fn first_local(refs: Seq<Seq<char>>) -> Option<Seq<char>>
    decreases refs.len(),
{
    if refs.len() == 0 {
        None
    } else {
        match text::strip_prefix(refs[0], "refs/heads/"@) {
            Some(name) => Some(name),
            None => first_local(refs.drop_first()),
        }
    }
}

/// The first name of a branch of a remote among the refs.
pub open spec fn first_remote(refs: Seq<Seq<char>>) -> Option<Seq<char>>
    decreases refs.len(),
{
    if refs.len() == 0 {
        None
    } else {
        match remote_branch(refs[0]) {
            Some(name) => Some(name),
            None => first_remote(refs.drop_first()),
        }
    }
}

/// The name of a commit in URLs: a tag, else a local branch, else a branch of a remote, else the
/// hash.
pub open spec fn best_ref(v: NodeView) -> Seq<char> {
    if v.tags.len() > 0 {
        text::trim_start_matches(v.tags[0], "refs/tags/"@)
    } else {
        match first_local(v.refs) {
            Some(name) => name,
            None => match first_remote(v.refs) {
                Some(name) => name,
                None => v.id,
            },
        }
    }
}

/// One list of the structured node id: nothing where it is empty.
pub open spec fn id_section(mark: Seq<char>, list: Seq<Seq<char>>) -> Seq<char> {
    if list.len() == 0 {
        seq![]
    } else {
        mark + search::join(list, ","@)
    }
}

/// The structured node id: the hash, then the local branches after `~L~`, the remote ones after
/// `~R~` and the tags after `~T~`.
pub open spec fn node_id(v: NodeView) -> Seq<char> {
    v.id + id_section("~L~"@, stripped(v.refs, "refs/heads/"@)) + id_section(
        "~R~"@,
        stripped(v.refs, "refs/remotes/"@),
    ) + id_section("~T~"@, tag_names(v.tags))
}

// ---------------------------------------------------------------------------------------------
// Label and colors
// ---------------------------------------------------------------------------------------------

/// The kinds of refs that a label tells apart.
#[derive(Clone, Copy, Debug, PartialEq, Eq, Structural)]
pub enum RefKind {
    Local,
    Remote,
    Other,
}

/// The kind of a ref, by its prefix.
pub open spec fn ref_kind(r: Seq<char>) -> RefKind {
    if text::starts_with(r, "refs/heads/"@) {
        RefKind::Local
    } else if text::starts_with(r, "refs/remotes/"@) {
        RefKind::Remote
    } else {
        RefKind::Other
    }
}

/// Whether some ref is of kind `kind`.
pub open spec fn has_kind(refs: Seq<Seq<char>>, kind: RefKind) -> bool {
    exists|i: int| 0 <= i < refs.len() && ref_kind(#[trigger] refs[i]) == kind
}

/// The name of a local branch in a label.
pub open spec fn local_name(r: Seq<char>) -> Seq<char> {
    text::trim_start_matches(r, "refs/heads/"@)
}

/// The remote and the branch of a remote-tracking ref in a label.
pub open spec fn remote_pair(r: Seq<char>) -> Option<(Seq<char>, Seq<char>)> {
    search::split_once(text::trim_start_matches(r, "refs/remotes/"@), "/"@)
}

/// The local branches of a label, in order and without repetition.
pub open spec fn label_locals(refs: Seq<Seq<char>>) -> Seq<Seq<char>>
    decreases refs.len(),
{
    if refs.len() == 0 {
        seq![]
    } else {
        let before = label_locals(refs.drop_last());
        if ref_kind(refs.last()) == RefKind::Local {
            names::with_name(before, local_name(refs.last()))
        } else {
            before
        }
    }
}

/// The remote branches of a label, in the order of remote and branch and without repetition.
pub open spec fn label_remotes(refs: Seq<Seq<char>>) -> Seq<(Seq<char>, Seq<char>)>
    decreases refs.len(),
{
    if refs.len() == 0 {
        seq![]
    } else {
        let before = label_remotes(refs.drop_last());
        if ref_kind(refs.last()) == RefKind::Remote {
            match remote_pair(refs.last()) {
                Some(p) => names::with_pair(before, p),
                None => before,
            }
        } else {
            before
        }
    }
}

/// The refs of a label that are not branches.
pub open spec fn label_others(refs: Seq<Seq<char>>) -> Seq<Seq<char>>
    decreases refs.len(),
{
    if refs.len() == 0 {
        seq![]
    } else {
        let before = label_others(refs.drop_last());
        if ref_kind(refs.last()) == RefKind::Other {
            before.push(text::trim_start_matches(refs.last(), "refs/"@))
        } else {
            before
        }
    }
}

/// The branch that gives a commit its colors: the first one among its refs.
pub open spec fn primary_branch(refs: Seq<Seq<char>>) -> Option<Seq<char>>
    decreases refs.len(),
{
    if refs.len() == 0 {
        None
    } else {
        match primary_branch(refs.drop_last()) {
            Some(name) => Some(name),
            None => match ref_kind(refs.last()) {
                RefKind::Local => Some(local_name(refs.last())),
                RefKind::Remote => match remote_pair(refs.last()) {
                    Some(p) => Some(p.1),
                    None => None,
                },
                RefKind::Other => None,
            },
        }
    }
}

/// A remote branch as a label writes it.
pub open spec fn remote_text(p: (Seq<char>, Seq<char>)) -> Seq<char> {
    p.0 + "/"@ + p.1
}

/// Remote branches as a label writes them.
pub open spec fn remote_texts(pairs: Seq<(Seq<char>, Seq<char>)>) -> Seq<Seq<char>> {
    Seq::new(pairs.len(), |i: int| remote_text(pairs[i]))
}

/// The lines of a label: local branches, remote branches, other refs and tags, or the short hash
/// of a commit that has none.
pub open spec fn label_parts(v: NodeView) -> Seq<Seq<char>> {
    if v.refs.len() == 0 && v.tags.len() == 0 {
        seq![v.short_id]
    } else {
        label_locals(v.refs) + remote_texts(label_remotes(v.refs)) + label_others(v.refs)
            + tag_names(v.tags)
    }
}

/// The colors of a node. The pen width is in tenths of a point.
#[derive(Clone, Copy, Debug)]
pub struct NodeColors {
    pub fill: &'static str,
    pub border: &'static str,
    pub font: &'static str,
    pub dashed: bool,
    pub base_penwidth: u32,
}

/// Whether a commit is the tip of a branch, local or remote.
pub open spec fn has_branch(v: NodeView) -> bool {
    has_kind(v.refs, RefKind::Local) || has_kind(v.refs, RefKind::Remote)
}

/// The colors of a commit: those of its branch, else of a tag, else of another ref, else of a
/// plain commit.
pub open spec fn node_colors(v: NodeView, theme: Theme) -> NodeColors {
    let tc = theme::theme_colors(theme);
    if v.refs.len() == 0 && v.tags.len() == 0 {
        if v.is_current_checkout {
            NodeColors {
                fill: tc.plain_current_fill,
                border: tc.plain_current_border,
                font: tc.plain_current_font,
                dashed: false,
                base_penwidth: 10,
            }
        } else {
            NodeColors {
                fill: tc.plain_fill,
                border: tc.plain_border,
                font: tc.plain_font,
                dashed: false,
                base_penwidth: 10,
            }
        }
    } else if has_branch(v) {
        let name = match primary_branch(v.refs) {
            Some(name) => name,
            None => ""@,
        };
        let c = theme::kind_colors(theme, theme::branch_kind(name));
        NodeColors { fill: c.0, border: c.1, font: c.2, dashed: false, base_penwidth: 10 }
    } else if v.tags.len() > 0 {
        NodeColors {
            fill: tc.tag_fill,
            border: tc.tag_border,
            font: tc.tag_font,
            dashed: true,
            base_penwidth: tc.tag_penwidth,
        }
    } else {
        NodeColors {
            fill: tc.other_fill,
            border: tc.other_border,
            font: tc.other_font,
            dashed: false,
            base_penwidth: 10,
        }
    }
}

// ---------------------------------------------------------------------------------------------
// DOT
// ---------------------------------------------------------------------------------------------

/// A width in tenths, written without a fraction where it is whole.
pub open spec fn width_text(tenths: nat) -> Seq<char> {
    if tenths % 10 == 0 {
        number::decimal(tenths / 10)
    } else {
        number::decimal(tenths / 10) + "."@ + number::decimal(tenths % 10)
    }
}

/// The texts of a label, each escaped.
pub open spec fn escaped_all(parts: Seq<Seq<char>>) -> Seq<Seq<char>> {
    Seq::new(parts.len(), |i: int| escape::dot_escaped(parts[i]))
}

/// The label of a node, escaped.
pub open spec fn dot_label(v: NodeView) -> Seq<char> {
    let base = search::join(escaped_all(label_parts(v)), "\\n"@);
    let current = if v.is_current_checkout {
        "CURRENT\\n"@ + base
    } else {
        base
    };
    if v.branch_readme is Some {
        current + "\\n📝"@
    } else {
        current
    }
}

/// The tooltip attribute of a node: its branch description, else its message.
pub open spec fn dot_tooltip(v: NodeView) -> Seq<char> {
    match v.branch_readme {
        Some(readme) => ", tooltip=\""@ + escape::tooltip_escaped(readme) + "\""@,
        None => if escape::tooltip_escaped(lines::trim(v.message)).len() == 0 {
            seq![]
        } else {
            ", tooltip=\""@ + escape::tooltip_escaped(lines::trim(v.message)) + "\""@
        },
    }
}

/// The style of a node: dashed for a tag, rounded for a branch.
pub open spec fn dot_style(dashed: bool, branch: bool) -> &'static str {
    if dashed {
        "dashed,filled"
    } else if branch {
        "rounded,filled"
    } else {
        "filled"
    }
}

/// The DOT statement of a node with the given id, colors and style.
pub open spec fn dot_statement(
    v: NodeView,
    id: Seq<char>,
    label: Seq<char>,
    colors: NodeColors,
    branch: bool,
) -> Seq<char> {
    "\""@ + v.id + "\" [id=\""@ + id + "\", label=\""@ + label + "\", shape=box, style=\""@
        + dot_style(colors.dashed, branch)@ + "\", color=\""@ + colors.border@
        + "\", fillcolor=\""@ + colors.fill@ + "\", fontname=\"Arial\", fontsize="@
        + number::decimal(
        if colors.dashed {
            8
        } else {
            9
        },
    ) + ", fontcolor=\""@ + colors.font@ + "\", penwidth="@ + width_text(
        if v.is_current_checkout {
            20
        } else {
            colors.base_penwidth as nat
        },
    ) + ", width=0.9, height=0.4"@ + dot_tooltip(v) + "]"@
}

/// The DOT statement of a commit.
pub open spec fn dot_node(v: NodeView, theme: Theme) -> Seq<char> {
    dot_statement(v, node_id(v), dot_label(v), node_colors(v, theme), has_branch(v))
}

/// Writes a width in tenths.
pub fn write_width(tenths: u32) -> (r: String)
    ensures
        r@ == width_text(tenths as nat),
{
    let mut out = count_text((tenths / 10) as usize);
    if tenths % 10 != 0 {
        out.append(".");
        let d = count_text((tenths % 10) as usize);
        out.append(d.as_str());
    }
    out
}

/// The rest of each ref that begins with `prefix`.
fn strip_all(refs: &NameSet, prefix: &str) -> (r: Vec<String>)
    ensures
        text::views(r@) == stripped(refs@, prefix@),
{
    let mut out: Vec<String> = Vec::new();
    let n = refs.len();
    let mut i: usize = 0;
    assert(text::views(out@) =~= seq![]);
    assert(refs@.take(0) =~= seq![]);
    while i < n
        invariant
            n == refs@.len(),
            i <= n,
            text::views(out@) == stripped(refs@.take(i as int), prefix@),
        decreases n - i,
    {
        let ghost before = out@;
        assert(refs@.take(i + 1).drop_last() =~= refs@.take(i as int));
        match without_prefix(refs.get(i), prefix) {
            Some(name) => {
                out.push(name);
                assert(text::views(out@) =~= text::views(before).push(name@));
            },
            None => {},
        }
        i = i + 1;
    }
    assert(refs@.take(n as int) =~= refs@);
    out
}

/// Each tag without `refs/tags/`.
fn strip_tags(tags: &NameSet) -> (r: Vec<String>)
    ensures
        text::views(r@) == tag_names(tags@),
{
    let mut out: Vec<String> = Vec::new();
    let n = tags.len();
    let mut i: usize = 0;
    while i < n
        invariant
            n == tags@.len(),
            i <= n,
            text::views(out@) =~= tag_names(tags@).take(i as int),
        decreases n - i,
    {
        let ghost before = out@;
        let name = without_leading(tags.get(i), "refs/tags/");
        out.push(name);
        assert(text::views(out@) =~= text::views(before).push(name@));
        i = i + 1;
    }
    assert(tag_names(tags@).take(n as int) =~= tag_names(tags@));
    out
}

/// The kind of a ref, by its prefix.
fn kind_of_ref(r: &str) -> (k: RefKind)
    ensures
        k == ref_kind(r@),
{
    if begins_with(r, "refs/heads/") {
        RefKind::Local
    } else if begins_with(r, "refs/remotes/") {
        RefKind::Remote
    } else {
        RefKind::Other
    }
}

/// Appends a section of the structured node id.
fn push_section(out: &mut String, mark: &str, list: &Vec<String>)
    ensures
        final(out)@ == old(out)@ + id_section(mark@, text::views(list@)),
{
    if list.len() > 0 {
        out.append(mark);
        let names = joined(list, ",");
        out.append(names.as_str());
    }
    assert(out@ =~= old(out)@ + id_section(mark@, text::views(list@)));
}

/// What a label is made of, as it is collected from the refs.
struct LabelRefs {
    locals: NameSet,
    remotes: Vec<(String, String)>,
    others: Vec<String>,
    primary: Option<String>,
    has_local: bool,
    has_remote: bool,
}

impl LabelRefs {
    /// What has been collected is what the refs give.
    spec fn covers(&self, refs: Seq<Seq<char>>) -> bool {
        &&& self.locals@ == label_locals(refs)
        &&& names::pair_views(self.remotes@) == label_remotes(refs)
        &&& text::views(self.others@) == label_others(refs)
        &&& text::opt_view(self.primary) == primary_branch(refs)
        &&& self.has_local == has_kind(refs, RefKind::Local)
        &&& self.has_remote == has_kind(refs, RefKind::Remote)
    }

    fn collect(refs: &NameSet) -> (r: LabelRefs)
        ensures
            r.covers(refs@),
    {
        let mut r = LabelRefs {
            locals: NameSet::new(),
            remotes: Vec::new(),
            others: Vec::new(),
            primary: None,
            has_local: false,
            has_remote: false,
        };
        let n = refs.len();
        let mut i: usize = 0;
        assert(names::pair_views(r.remotes@) =~= seq![]);
        assert(text::views(r.others@) =~= seq![]);
        assert(refs@.take(0) =~= seq![]);
        while i < n
            invariant
                n == refs@.len(),
                i <= n,
                r.covers(refs@.take(i as int)),
            decreases n - i,
        {
            r.add(refs.get(i), Ghost(refs@.take(i as int)));
            assert(refs@.take(i as int).push(refs@[i as int]) =~= refs@.take(i + 1));
            i = i + 1;
        }
        assert(refs@.take(n as int) =~= refs@);
        r
    }

    fn add(&mut self, r: &str, Ghost(refs): Ghost<Seq<Seq<char>>>)
        requires
            old(self).covers(refs),
        ensures
            final(self).covers(refs.push(r@)),
    {
        let ghost more = refs.push(r@);
        let kind = kind_of_ref(r);
        proof {
            assert(more.drop_last() =~= refs);
            assert(more.last() == r@);
            lemma_has_kind_push(refs, r@, RefKind::Local);
            lemma_has_kind_push(refs, r@, RefKind::Remote);
        }
        match kind {
            RefKind::Local => {
                let name = without_leading(r, "refs/heads/");
                if self.primary.is_none() {
                    self.primary = Some(name.clone());
                }
                self.locals.insert(name);
                self.has_local = true;
            },
            RefKind::Remote => {
                let rest = without_leading(r, "refs/remotes/");
                match cut_once(rest.as_str(), "/") {
                    Some(p) => {
                        if self.primary.is_none() {
                            self.primary = Some(p.1.clone());
                        }
                        insert_pair(&mut self.remotes, p.0, p.1);
                    },
                    None => {},
                }
                self.has_remote = true;
            },
            RefKind::Other => {
                let ghost before = self.others@;
                let name = without_leading(r, "refs/");
                self.others.push(name);
                assert(text::views(self.others@) =~= text::views(before).push(name@));
            },
        }
    }
}

proof fn lemma_has_kind_push(refs: Seq<Seq<char>>, r: Seq<char>, kind: RefKind)
    ensures
        has_kind(refs.push(r), kind) == (has_kind(refs, kind) || ref_kind(r) == kind),
{
    let more = refs.push(r);
    if has_kind(refs, kind) {
        let i = choose|i: int| 0 <= i < refs.len() && ref_kind(#[trigger] refs[i]) == kind;
        assert(more[i] == refs[i]);
    }
    if ref_kind(r) == kind {
        assert(more[refs.len() as int] == r);
    }
    if has_kind(more, kind) && ref_kind(r) != kind {
        let i = choose|i: int| 0 <= i < more.len() && ref_kind(#[trigger] more[i]) == kind;
        assert(refs[i] == more[i]);
    }
}

impl CommitNode {
    /// A commit that nothing points at yet.
    pub fn new(id: &str, message: &str, timestamp: i64) -> (r: Self)
        ensures
            r@ == bare_node(id@, message@, timestamp),
    {
        CommitNode {
            id: id.to_owned(),
            short_id: take_chars(id, 7),
            message: message.to_owned(),
            timestamp,
            tags: NameSet::new(),
            refs: NameSet::new(),
            is_tip: false,
            branch_readme: None,
            is_current_checkout: false,
            is_stash: false,
        }
    }

    /// The hash of the commit.
    pub fn hash(&self) -> (r: &str)
        ensures
            r@ == self@.id,
    {
        self.id.as_str()
    }

    /// Whether the commit is a stash.
    pub fn stashed(&self) -> (r: bool)
        ensures
            r == self@.is_stash,
    {
        self.is_stash
    }

    /// Adds a tag.
    pub fn add_tag(&mut self, tag: String)
        ensures
            final(self)@ == (NodeView {
                tags: names::with_name(old(self)@.tags, tag@),
                ..old(self)@
            }),
            in_order(old(self)@),
            in_order(final(self)@),
    {
        proof {
            use_type_invariant(&self.refs);
        }
        self.tags.insert(tag);
    }

    /// Adds a ref, under its full name.
    pub fn add_ref(&mut self, ref_name: String)
        ensures
            final(self)@ == (NodeView {
                refs: names::with_name(old(self)@.refs, ref_name@),
                ..old(self)@
            }),
            in_order(old(self)@),
            in_order(final(self)@),
    {
        proof {
            use_type_invariant(&self.tags);
        }
        self.refs.insert(ref_name);
    }

    /// Sets the description of the branch whose tip this is.
    pub fn set_branch_readme(&mut self, readme: String)
        ensures
            final(self)@ == (NodeView { branch_readme: Some(readme@), ..old(self)@ }),
    {
        self.branch_readme = Some(readme);
    }

    /// Says whether the commit is the tip of a ref.
    pub fn set_tip(&mut self, is_tip: bool)
        ensures
            final(self)@ == (NodeView { is_tip, ..old(self)@ }),
    {
        self.is_tip = is_tip;
    }

    /// Says whether the commit is checked out.
    pub fn set_current_checkout(&mut self, is_current: bool)
        ensures
            final(self)@ == (NodeView { is_current_checkout: is_current, ..old(self)@ }),
    {
        self.is_current_checkout = is_current;
    }

    /// Says that the commit is a stash.
    pub fn set_stash(&mut self)
        ensures
            final(self)@ == (NodeView { is_stash: true, ..old(self)@ }),
    {
        self.is_stash = true;
    }

    /// The time of the commit, in seconds since the epoch.
    pub fn timestamp(&self) -> (r: i64)
        ensures
            r == self@.timestamp,
    {
        self.timestamp
    }

    /// The best human-readable name for use in URLs: a tag, else a local branch, else a branch of
    /// a remote, else the hash.
    pub fn best_ref_for_url(&self) -> (r: String)
        ensures
            r@ == best_ref(self@),
            in_order(self@),
    {
        proof {
            use_type_invariant(&self.tags);
            use_type_invariant(&self.refs);
        }
        if self.tags.len() > 0 {
            return without_leading(self.tags.get(0), "refs/tags/");
        }
        let n = self.refs.len();
        let ghost refs = self.refs@;
        let mut i: usize = 0;
        assert(refs.skip(0) =~= refs);
        while i < n
            invariant
                refs == self.refs@,
                in_order(self@),
                self.tags@.len() == 0,
                n == refs.len(),
                i <= n,
                first_local(refs) == first_local(refs.skip(i as int)),
            decreases n - i,
        {
            match without_prefix(self.refs.get(i), "refs/heads/") {
                Some(name) => {
                    return name;
                },
                None => {},
            }
            assert(refs.skip(i as int).drop_first() =~= refs.skip(i + 1));
            i = i + 1;
        }
        let mut k: usize = 0;
        while k < n
            invariant
                refs == self.refs@,
                in_order(self@),
                self.tags@.len() == 0,
                n == refs.len(),
                k <= n,
                first_local(refs) is None,
                first_remote(refs) == first_remote(refs.skip(k as int)),
            decreases n - k,
        {
            match without_prefix(self.refs.get(k), "refs/remotes/") {
                Some(rest) => match cut_once(rest.as_str(), "/") {
                    Some(p) => {
                        return p.1;
                    },
                    None => {},
                },
                None => {},
            }
            assert(refs.skip(k as int).drop_first() =~= refs.skip(k + 1));
            k = k + 1;
        }
        self.id.clone()
    }

    /// The DOT statement of the commit. Its node id lists the branches and tags, so that a page
    /// that shows the graph can tell them apart.
    pub fn get_dot_node(&self, theme: Theme) -> (r: String)
        ensures
            r@ == dot_node(self@, theme),
            in_order(self@),
    {
        proof {
            use_type_invariant(&self.tags);
            use_type_invariant(&self.refs);
        }
        let (parts, colors, has_local, has_remote) = self.build_label_parts(theme);
        let local = strip_all(&self.refs, "refs/heads/");
        let remote = strip_all(&self.refs, "refs/remotes/");
        let tags = strip_tags(&self.tags);
        let mut id = self.id.clone();
        push_section(&mut id, "~L~", &local);
        push_section(&mut id, "~R~", &remote);
        push_section(&mut id, "~T~", &tags);
        self.get_dot_node_standard(&parts, &colors, has_local, has_remote, id.as_str())
    }

    /// The lines of the label, the colors, and whether a local and a remote branch points here.
    fn build_label_parts(&self, theme: Theme) -> (r: (Vec<String>, NodeColors, bool, bool))
        ensures
            text::views(r.0@) == label_parts(self@),
            r.1 == node_colors(self@, theme),
            r.2 == has_kind(self@.refs, RefKind::Local),
            r.3 == has_kind(self@.refs, RefKind::Remote),
    {
        let tc = theme.colors();
        let mut parts: Vec<String> = Vec::new();
        if self.refs.is_empty() && self.tags.is_empty() {
            parts.push(self.short_id.clone());
            assert(text::views(parts@) =~= seq![self@.short_id]);
            let colors = if self.is_current_checkout {
                NodeColors {
                    fill: tc.plain_current_fill,
                    border: tc.plain_current_border,
                    font: tc.plain_current_font,
                    dashed: false,
                    base_penwidth: 10,
                }
            } else {
                NodeColors {
                    fill: tc.plain_fill,
                    border: tc.plain_border,
                    font: tc.plain_font,
                    dashed: false,
                    base_penwidth: 10,
                }
            };
            return (parts, colors, false, false);
        }
        let found = LabelRefs::collect(&self.refs);
        let ghost refs = self.refs@;
        let n = found.locals.len();
        let mut i: usize = 0;
        while i < n
            invariant
                n == found.locals@.len(),
                i <= n,
                text::views(parts@) =~= found.locals@.take(i as int),
            decreases n - i,
        {
            let ghost before = parts@;
            parts.push(found.locals.get(i).to_owned());
            assert(text::views(parts@) =~= text::views(before).push(found.locals@[i as int]));
            i = i + 1;
        }
        assert(text::views(parts@) =~= label_locals(refs));
        let ghost pairs = names::pair_views(found.remotes@);
        let mut k: usize = 0;
        while k < found.remotes.len()
            invariant
                pairs == names::pair_views(found.remotes@),
                k <= found.remotes@.len(),
                text::views(parts@) =~= label_locals(refs) + remote_texts(pairs).take(k as int),
            decreases found.remotes@.len() - k,
        {
            let ghost before = parts@;
            let mut name = found.remotes[k].0.clone();
            name.append("/");
            name.append(found.remotes[k].1.as_str());
            parts.push(name);
            assert(name@ == remote_text(pairs[k as int]));
            assert(text::views(parts@) =~= text::views(before).push(name@));
            k = k + 1;
        }
        assert(text::views(parts@) =~= label_locals(refs) + remote_texts(label_remotes(refs)));
        let mut others = found.others;
        let ghost before_others = parts@;
        let ghost other_views = text::views(others@);
        parts.append(&mut others);
        assert(text::views(parts@) =~= text::views(before_others) + other_views);
        let mut tags = strip_tags(&self.tags);
        let ghost before_tags = parts@;
        let ghost tag_views = text::views(tags@);
        parts.append(&mut tags);
        assert(text::views(parts@) =~= text::views(before_tags) + tag_views);
        let colors = if found.has_local || found.has_remote {
            let c = match &found.primary {
                Some(name) => theme.branch_colors(name.as_str()),
                None => theme.branch_colors(""),
            };
            NodeColors { fill: c.0, border: c.1, font: c.2, dashed: false, base_penwidth: 10 }
        } else if !self.tags.is_empty() {
            NodeColors {
                fill: tc.tag_fill,
                border: tc.tag_border,
                font: tc.tag_font,
                dashed: true,
                base_penwidth: tc.tag_penwidth,
            }
        } else {
            NodeColors {
                fill: tc.other_fill,
                border: tc.other_border,
                font: tc.other_font,
                dashed: false,
                base_penwidth: 10,
            }
        };
        (parts, colors, found.has_local, found.has_remote)
    }

    /// The DOT statement, given what it is made of.
    fn get_dot_node_standard(
        &self,
        parts: &Vec<String>,
        colors: &NodeColors,
        has_local: bool,
        has_remote: bool,
        node_id: &str,
    ) -> (r: String)
        requires
            text::views(parts@) == label_parts(self@),
        ensures
            r@ == dot_statement(
                self@,
                node_id@,
                dot_label(self@),
                *colors,
                has_local || has_remote,
            ),
    {
        let mut escaped: Vec<String> = Vec::new();
        let mut i: usize = 0;
        let ghost all = escaped_all(label_parts(self@));
        while i < parts.len()
            invariant
                text::views(parts@) == label_parts(self@),
                all == escaped_all(label_parts(self@)),
                i <= parts@.len(),
                text::views(escaped@) =~= all.take(i as int),
            decreases parts@.len() - i,
        {
            let ghost before = escaped@;
            let part = dot_escape(parts[i].as_str());
            assert(part@ == all[i as int]) by {
                assert(label_parts(self@)[i as int] == text::views(parts@)[i as int]);
            }
            escaped.push(part);
            assert(text::views(escaped@) =~= text::views(before).push(part@));
            i = i + 1;
        }
        assert(text::views(escaped@) =~= all);
        let base = joined(&escaped, "\\n");
        let mut label = if self.is_current_checkout {
            "CURRENT\\n".to_owned()
        } else {
            String::new()
        };
        label.append(base.as_str());
        assert(!self.is_current_checkout ==> label@ =~= base@);
        if self.branch_readme.is_some() {
            label.append("\\n📝");
        }
        assert(label@ == dot_label(self@));
        let tooltip = self.tooltip_attr();
        let style = if colors.dashed {
            "dashed,filled"
        } else if has_local || has_remote {
            "rounded,filled"
        } else {
            "filled"
        };
        let penwidth = if self.is_current_checkout {
            write_width(20)
        } else {
            write_width(colors.base_penwidth)
        };
        let font_size = if colors.dashed {
            count_text(8)
        } else {
            count_text(9)
        };
        let mut out = "\"".to_owned();
        out.append(self.id.as_str());
        out.append("\" [id=\"");
        out.append(node_id);
        out.append("\", label=\"");
        out.append(label.as_str());
        out.append("\", shape=box, style=\"");
        out.append(style);
        out.append("\", color=\"");
        out.append(colors.border);
        out.append("\", fillcolor=\"");
        out.append(colors.fill);
        out.append("\", fontname=\"Arial\", fontsize=");
        out.append(font_size.as_str());
        out.append(", fontcolor=\"");
        out.append(colors.font);
        out.append("\", penwidth=");
        out.append(penwidth.as_str());
        out.append(", width=0.9, height=0.4");
        out.append(tooltip.as_str());
        out.append("]");
        out
    }

    /// The tooltip attribute.
    fn tooltip_attr(&self) -> (r: String)
        ensures
            r@ == dot_tooltip(self@),
    {
        let escaped = match &self.branch_readme {
            Some(readme) => tooltip_escape(readme.as_str()),
            None => {
                let message = trimmed(self.message.as_str());
                let escaped = tooltip_escape(message.as_str());
                if escaped.as_str().is_empty() {
                    return String::new();
                }
                escaped
            },
        };
        let mut out = ", tooltip=\"".to_owned();
        out.append(escaped.as_str());
        out.append("\"");
        out
    }
}

// ---------------------------------------------------------------------------------------------
// Laws of the node id
// ---------------------------------------------------------------------------------------------

/// The fields of one section of a node id.
pub open spec fn section_fields(mark: char, list: Seq<Seq<char>>) -> Seq<Seq<char>> {
    if list.len() == 0 {
        seq![]
    } else {
        seq![seq![mark], search::join(list, ","@)]
    }
}

/// Whether no name of the list holds `c`.
pub open spec fn free_of(list: Seq<Seq<char>>, c: char) -> bool {
    forall|i: int| 0 <= i < list.len() ==> !(#[trigger] list[i]).contains(c)
}

/// A commit with tags is named in URLs by the least of them, and so whatever the order in which
/// they were added.
pub proof fn law_least_tag_names_the_commit(v: NodeView, a: Seq<char>, b: Seq<char>)
    requires
        in_order(v),
    ensures
        v.tags.len() > 0 ==> best_ref(v) == text::trim_start_matches(v.tags[0], "refs/tags/"@)
            && forall|i: int| 0 < i < v.tags.len() ==> text::text_less(v.tags[0], #[trigger] v.tags[i]),
        names::with_name(names::with_name(v.tags, a), b) == names::with_name(
            names::with_name(v.tags, b),
            a,
        ),
{
    names::law_names_go_in_in_any_order(v.tags, a, b);
}

/// A tilde, which no ref name may hold, separates the parts of a node id: splitting at tildes
/// gives the hash and then, for each list that is not empty, its mark and its names.
pub proof fn law_node_id_splits_at_tildes(v: NodeView)
    requires
        !v.id.contains('~'),
        free_of(stripped(v.refs, "refs/heads/"@), '~'),
        free_of(stripped(v.refs, "refs/remotes/"@), '~'),
        free_of(tag_names(v.tags), '~'),
    ensures
        search::split(node_id(v), seq!['~']) == seq![v.id] + section_fields(
            'L',
            stripped(v.refs, "refs/heads/"@),
        ) + section_fields('R', stripped(v.refs, "refs/remotes/"@)) + section_fields(
            'T',
            tag_names(v.tags),
        ),
{
    let locals = stripped(v.refs, "refs/heads/"@);
    let remotes = stripped(v.refs, "refs/remotes/"@);
    let tags = tag_names(v.tags);
    reveal_strlit("~L~");
    reveal_strlit("~R~");
    reveal_strlit("~T~");
    assert("~L~"@ =~= seq!['~', 'L', '~']);
    assert("~R~"@ =~= seq!['~', 'R', '~']);
    assert("~T~"@ =~= seq!['~', 'T', '~']);
    let empty = Seq::<char>::empty();
    let t = id_section("~T~"@, tags);
    let rt = id_section("~R~"@, remotes) + t;
    let lrt = id_section("~L~"@, locals) + rt;
    assert(t =~= t + empty);
    lemma_section("~T~"@, 'T', tags, empty, seq![]);
    lemma_section("~R~"@, 'R', remotes, t, section_fields('T', tags));
    lemma_section(
        "~L~"@,
        'L',
        locals,
        rt,
        section_fields('R', remotes) + section_fields('T', tags),
    );
    let after = section_fields('L', locals) + (section_fields('R', remotes) + section_fields(
        'T',
        tags,
    ));
    assert(node_id(v) =~= v.id + lrt);
    lemma_field(v.id, lrt, after);
    assert(seq![v.id] + after =~= seq![v.id] + section_fields('L', locals) + section_fields(
        'R',
        remotes,
    ) + section_fields('T', tags));
}

/// Whether `rest` follows a field of a node id: it is empty, or begins with a tilde, and then
/// holds the given fields.
spec fn follows(rest: Seq<char>, fields: Seq<Seq<char>>) -> bool {
    if rest.len() == 0 {
        fields.len() == 0
    } else {
        rest[0] == '~' && search::split(rest.drop_first(), seq!['~']) == fields
    }
}

proof fn lemma_field(a: Seq<char>, rest: Seq<char>, fields: Seq<Seq<char>>)
    requires
        !a.contains('~'),
        follows(rest, fields),
    ensures
        search::split(a + rest, seq!['~']) == seq![a] + fields,
{
    if rest.len() == 0 {
        search::lemma_split_whole(a, '~');
        assert(a + rest =~= a);
        assert(seq![a] + fields =~= seq![a]);
    } else {
        search::lemma_split_head(a, '~', rest.drop_first());
        assert(a + rest =~= a + seq!['~'] + rest.drop_first());
    }
}

proof fn lemma_section(
    mark_text: Seq<char>,
    mark: char,
    list: Seq<Seq<char>>,
    rest: Seq<char>,
    fields: Seq<Seq<char>>,
)
    requires
        mark != '~',
        mark_text == seq!['~', mark, '~'],
        free_of(list, '~'),
        follows(rest, fields),
    ensures
        follows(id_section(mark_text, list) + rest, section_fields(mark, list) + fields),
{
    let all = id_section(mark_text, list) + rest;
    if list.len() == 0 {
        assert(all =~= rest);
        assert(section_fields(mark, list) + fields =~= fields);
    } else {
        let names = search::join(list, ","@);
        reveal_strlit(",");
        lemma_join_free(list, ","@, '~');
        lemma_field(names, rest, fields);
        let one = seq![mark];
        assert(!one.contains('~'));
        search::lemma_split_head(one, '~', names + rest);
        assert(all.drop_first() =~= one + seq!['~'] + (names + rest));
        assert(section_fields(mark, list) + fields =~= seq![one] + (seq![names] + fields));
    }
}

proof fn lemma_join_free(list: Seq<Seq<char>>, sep: Seq<char>, c: char)
    requires
        free_of(list, c),
        !sep.contains(c),
    ensures
        !search::join(list, sep).contains(c),
    decreases list.len(),
{
    if list.len() > 1 {
        let before = list.drop_last();
        assert(forall|i: int| 0 <= i < before.len() ==> before[i] == list[i]);
        lemma_join_free(before, sep, c);
        let all = search::join(list, sep);
        let head = search::join(before, sep);
        assert forall|i: int| 0 <= i < all.len() implies all[i] != c by {
            if i < head.len() {
                assert(all[i] == head[i]);
                assert(head.contains(head[i]));
            } else if i < head.len() + sep.len() {
                assert(all[i] == sep[i - head.len()]);
                assert(sep.contains(sep[i - head.len()]));
            } else {
                let k = i - head.len() - sep.len();
                assert(all[i] == list.last()[k]);
                assert(list.last().contains(list.last()[k]));
                assert(!list[list.len() - 1].contains(c));
            }
        }
    }
}

impl PartialEq for CommitNode {
    /// Two nodes are the same where their hashes are.
    fn eq(&self, other: &Self) -> (r: bool) {
        self.id == other.id
    }
}

impl vstd::std_specs::cmp::PartialEqSpecImpl for CommitNode {
    open spec fn obeys_eq_spec() -> bool {
        true
    }

    open spec fn eq_spec(&self, other: &Self) -> bool {
        self@.id == other@.id
    }
}

impl Eq for CommitNode {

}

impl PartialOrd for CommitNode {
    /// Nodes are ordered by their times.
    fn partial_cmp(&self, other: &Self) -> (r: Option<std::cmp::Ordering>) {
        if self.timestamp < other.timestamp {
            Some(std::cmp::Ordering::Less)
        } else if self.timestamp == other.timestamp {
            Some(std::cmp::Ordering::Equal)
        } else {
            Some(std::cmp::Ordering::Greater)
        }
    }
}

impl vstd::std_specs::cmp::PartialOrdSpecImpl for CommitNode {
    open spec fn obeys_partial_cmp_spec() -> bool {
        true
    }

    open spec fn partial_cmp_spec(&self, other: &Self) -> Option<std::cmp::Ordering> {
        if self@.timestamp < other@.timestamp {
            Some(std::cmp::Ordering::Less)
        } else if self@.timestamp == other@.timestamp {
            Some(std::cmp::Ordering::Equal)
        } else {
            Some(std::cmp::Ordering::Greater)
        }
    }
}

} // verus!
