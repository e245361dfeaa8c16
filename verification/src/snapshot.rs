//! What is read from a repository, and which of its refs a graph shows.

use vstd::prelude::*;

use crate::filter::RefFilter;
use crate::history;
use crate::history::{all_false, History};
use crate::number;
use crate::number::count_text;

verus! {

/// The name of a branch, as the repository gives it.
#[derive(Debug)]
pub enum BranchName {
    Text(String),
    /// A name that is not UTF-8.
    NotText,
    /// A name that could not be read.
    Unreadable,
}

/// A branch and the commit at its tip. A branch that points at another ref has none.
#[derive(Debug)]
pub struct BranchRecord {
    pub name: BranchName,
    pub target: Option<usize>,
}

/// A tag and the commit that it leads to.
#[derive(Debug)]
pub struct TagRecord {
    pub name: String,
    pub target: usize,
}

/// What is read from a repository. Commits are given by their places in the history.
#[derive(Debug)]
pub struct Snapshot {
    pub history: History,
    pub local: Vec<BranchRecord>,
    pub remote: Vec<BranchRecord>,
    /// The commit that is checked out.
    pub head: Option<usize>,
    /// The stashed commits, newest first.
    pub stashes: Vec<usize>,
    pub tags: Vec<TagRecord>,
    /// The commits behind the refs, newest first: a graph with a limit shows no others.
    pub newest: Vec<usize>,
}

/// The text of a branch's name.
pub open spec fn branch_text(name: BranchName) -> Option<Seq<char>> {
    match name {
        BranchName::Text(s) => Some(s@),
        BranchName::NotText => Some("unknown"@),
        BranchName::Unreadable => None,
    }
}

/// What a mark does to the commit that it stands at.
#[derive(Clone, Copy, Debug, PartialEq, Eq, Structural)]
pub enum MarkKind {
    /// A ref whose tip the commit is.
    Ref,
    /// A ref of a stash.
    Stash,
    Tag,
    /// No name: the commit is checked out.
    Checkout,
}

/// A name at a commit.
#[derive(Debug)]
pub struct Mark {
    pub kind: MarkKind,
    pub name: String,
    pub target: usize,
}

/// What a mark holds.
#[verifier::ext_equal]
pub struct MarkView {
    pub kind: MarkKind,
    pub name: Seq<char>,
    pub target: usize,
}

impl View for Mark {
    type V = MarkView;

    open spec fn view(&self) -> MarkView {
        MarkView { kind: self.kind, name: self.name@, target: self.target }
    }
}

/// What marks hold.
pub open spec fn mark_views(v: Seq<Mark>) -> Seq<MarkView> {
    Seq::new(v.len(), |i: int| v[i]@)
}

/// Which part of a repository is shown.
#[derive(Debug)]
pub struct Selection {
    pub filter: RefFilter,
    /// Only refs that the checked out commit descends from.
    pub current_branch_only: bool,
    /// Only the newest commits, this many; with 0 all.
    pub limit: usize,
}

/// Whether the limit leaves room for a commit.
pub open spec fn within_limit(s: Snapshot, sel: Selection, c: usize) -> bool {
    sel.limit > 0 ==> exists|i: int|
        0 <= i < s.newest@.len() && i < sel.limit && #[trigger] s.newest@[i] == c
}

/// Whether a commit is on the current branch: the checked out commit, or an ancestor of it. With
/// nothing checked out every commit is.
pub open spec fn on_current_branch(s: Snapshot, c: usize) -> bool {
    match s.head {
        Some(head) => history::reaches(s.history.parents(), head as int, c as int),
        None => true,
    }
}

/// Whether a ref at `c` is shown, be it a branch, a stash or a tag.
pub open spec fn shows_ref(s: Snapshot, sel: Selection, c: usize) -> bool {
    (sel.current_branch_only ==> on_current_branch(s, c)) && within_limit(s, sel, c)
}

/// The marks of branches.
pub open spec fn branch_marks(
    s: Snapshot,
    sel: Selection,
    prefix: Seq<char>,
    branches: Seq<BranchRecord>,
) -> Seq<MarkView>
    decreases branches.len(),
{
    if branches.len() == 0 {
        seq![]
    } else {
        let before = branch_marks(s, sel, prefix, branches.drop_last());
        let b = branches.last();
        match (branch_text(b.name), b.target) {
            (Some(name), Some(c)) => if shows_ref(s, sel, c) {
                before.push(MarkView { kind: MarkKind::Ref, name: prefix + name, target: c })
            } else {
                before
            },
            _ => before,
        }
    }
}

/// The marks of the checked out commit. It is named HEAD where the filter says so.
pub open spec fn head_marks(s: Snapshot, sel: Selection) -> Seq<MarkView> {
    match s.head {
        Some(head) => if !within_limit(s, sel, head) {
            seq![]
        } else if sel.filter.head {
            seq![
                MarkView { kind: MarkKind::Checkout, name: seq![], target: head },
                MarkView { kind: MarkKind::Ref, name: "HEAD"@, target: head },
            ]
        } else {
            seq![MarkView { kind: MarkKind::Checkout, name: seq![], target: head }]
        },
        None => seq![],
    }
}

/// The name of a stash.
pub open spec fn stash_name(index: nat) -> Seq<char> {
    "stash@{"@ + number::decimal(index) + "}"@
}

/// The marks of stashes.
pub open spec fn stash_marks(s: Snapshot, sel: Selection, stashes: Seq<usize>) -> Seq<MarkView>
    decreases stashes.len(),
{
    if stashes.len() == 0 {
        seq![]
    } else {
        let before = stash_marks(s, sel, stashes.drop_last());
        if shows_ref(s, sel, stashes.last()) {
            before.push(
                MarkView {
                    kind: MarkKind::Stash,
                    name: stash_name((stashes.len() - 1) as nat),
                    target: stashes.last(),
                },
            )
        } else {
            before
        }
    }
}

/// The marks of tags.
pub open spec fn tag_marks(s: Snapshot, sel: Selection, tags: Seq<TagRecord>) -> Seq<MarkView>
    decreases tags.len(),
{
    if tags.len() == 0 {
        seq![]
    } else {
        let before = tag_marks(s, sel, tags.drop_last());
        let t = tags.last();
        if shows_ref(s, sel, t.target) {
            before.push(MarkView { kind: MarkKind::Tag, name: t.name@, target: t.target })
        } else {
            before
        }
    }
}

/// `marks` where the filter lets them pass.
pub open spec fn passed(pass: bool, marks: Seq<MarkView>) -> Seq<MarkView> {
    if pass {
        marks
    } else {
        seq![]
    }
}

/// All marks of the part of a repository that is shown.
pub open spec fn all_marks(s: Snapshot, sel: Selection) -> Seq<MarkView> {
    passed(sel.filter.branches, branch_marks(s, sel, "refs/heads/"@, s.local@)) + passed(
        sel.filter.remotes,
        branch_marks(s, sel, "refs/remotes/"@, s.remote@),
    ) + head_marks(s, sel) + passed(sel.filter.stashes, stash_marks(s, sel, s.stashes@)) + passed(
        sel.filter.tags,
        tag_marks(s, sel, s.tags@),
    )
}

/// Which commits are shown, worked out once for all of them.
struct Reach {
    limited: Option<Vec<bool>>,
    current: Option<Vec<bool>>,
}

impl Reach {
    /// What has been worked out is what the snapshot gives.
    spec fn covers(&self, s: Snapshot, sel: Selection) -> bool {
        &&& match self.limited {
            Some(set) => sel.limit > 0 && set@.len() == s.history@.len() && forall|c: usize|
                (c as int) < set@.len() ==> #[trigger] set@[c as int] == within_limit(s, sel, c),
            None => sel.limit == 0,
        }
        &&& match self.current {
            Some(set) => s.head is Some && set@.len() == s.history@.len() && forall|c: usize|
                (c as int) < set@.len() ==> #[trigger] set@[c as int] == on_current_branch(s, c),
            None => s.head is None,
        }
    }

    fn new(s: &Snapshot, sel: &Selection) -> (r: Reach)
        ensures
            r.covers(*s, *sel),
    {
        let n = s.history.len();
        let limited = if sel.limit > 0 {
            let mut set = all_false(n);
            let mut i: usize = 0;
            while i < s.newest.len() && i < sel.limit
                invariant
                    n == s.history@.len(),
                    set@.len() == n,
                    i <= s.newest@.len(),
                    i <= sel.limit,
                    forall|c: usize|
                        (c as int) < n ==> #[trigger] set@[c as int] == exists|j: int|
                            0 <= j < i && #[trigger] s.newest@[j] == c,
                decreases s.newest@.len() - i,
            {
                let ghost before = set@;
                let x = s.newest[i];
                if x < n {
                    set.set(x, true);
                }
                assert forall|c: usize| (c as int) < n implies #[trigger] set@[c as int] == exists|
                    j: int,
                |
                    0 <= j < i + 1 && #[trigger] s.newest@[j] == c by {
                    if before[c as int] {
                        let j = choose|j: int| 0 <= j < i && #[trigger] s.newest@[j] == c;
                        assert(s.newest@[j] == c);
                    }
                    if c == x {
                        assert(s.newest@[i as int] == c);
                    }
                }
                i = i + 1;
            }
            Some(set)
        } else {
            None
        };
        let current = match s.head {
            Some(head) => {
                if head < n {
                    Some(s.history.ancestors(head))
                } else {
                    let set = all_false(n);
                    assert forall|c: usize| (c as int) < n implies #[trigger] set@[c as int]
                        == on_current_branch(*s, c) by {
                        let ps = s.history.parents();
                        if history::reaches(ps, head as int, c as int) {
                            let steps = choose|steps: nat|
                                #[trigger] history::reaches_in(ps, head as int, c as int, steps);
                            assert(history::reaches_in(ps, head as int, c as int, steps));
                        }
                    }
                    Some(set)
                }
            },
            None => None,
        };
        Reach { limited, current }
    }

    /// Whether the limit leaves room for `c`.
    fn limit_allows(&self, s: &Snapshot, sel: &Selection, c: usize) -> (r: bool)
        requires
            self.covers(*s, *sel),
        ensures
            r == within_limit(*s, *sel, c),
    {
        match &self.limited {
            Some(set) => {
                if c < set.len() {
                    set[c]
                } else {
                    listed(&s.newest, sel.limit, c)
                }
            },
            None => true,
        }
    }

    /// Whether `c` is on the current branch.
    fn is_on_current_branch(&self, s: &Snapshot, sel: &Selection, c: usize) -> (r: bool)
        requires
            self.covers(*s, *sel),
        ensures
            r == on_current_branch(*s, c),
    {
        match &self.current {
            Some(set) => {
                let n = s.history.len();
                if c < n {
                    set[c]
                } else {
                    let head = s.head.unwrap();
                    proof {
                        lemma_reaches_outside(s.history.parents(), head as int, c as int);
                    }
                    c == head
                }
            },
            None => true,
        }
    }

    /// Whether a ref at `c` is shown.
    fn shows(&self, s: &Snapshot, sel: &Selection, c: usize) -> (r: bool)
        requires
            self.covers(*s, *sel),
        ensures
            r == shows_ref(*s, *sel, c),
    {
        (!sel.current_branch_only || self.is_on_current_branch(s, sel, c)) && self.limit_allows(
            s,
            sel,
            c,
        )
    }
}

/// A place outside the history is reached from itself only.
proof fn lemma_reaches_outside(ps: Seq<Seq<usize>>, a: int, c: int)
    requires
        history::in_range(ps),
        !(0 <= c < ps.len()),
    ensures
        history::reaches(ps, a, c) == (a == c),
{
    history::lemma_reaches_self(ps, a);
    if history::reaches(ps, a, c) && 0 <= a < ps.len() {
        let all = Seq::new(ps.len(), |i: int| true);
        history::lemma_closed_set(ps, all, a, c);
    }
    if history::reaches(ps, a, c) && !(0 <= a < ps.len()) {
        let steps = choose|steps: nat| #[trigger] history::reaches_in(ps, a, c, steps);
        assert(history::reaches_in(ps, a, c, steps));
    }
}

/// Whether `c` is among the first `limit` elements of `v`.
fn listed(v: &Vec<usize>, limit: usize, c: usize) -> (r: bool)
    ensures
        r == exists|i: int| 0 <= i < v@.len() && i < limit && #[trigger] v@[i] == c,
{
    let mut i: usize = 0;
    while i < v.len() && i < limit
        invariant
            i <= v@.len(),
            i <= limit,
            forall|j: int| 0 <= j < i ==> #[trigger] v@[j] != c,
        decreases v@.len() - i,
    {
        if v[i] == c {
            assert(v@[i as int] == c);
            return true;
        }
        i = i + 1;
    }
    false
}

/// Appends the marks of branches.
fn push_branch_marks(
    s: &Snapshot,
    sel: &Selection,
    reach: &Reach,
    prefix: &str,
    branches: &Vec<BranchRecord>,
    out: &mut Vec<Mark>,
)
    requires
        reach.covers(*s, *sel),
    ensures
        mark_views(final(out)@) == mark_views(old(out)@) + branch_marks(
            *s,
            *sel,
            prefix@,
            branches@,
        ),
{
    let ghost start = mark_views(out@);
    let mut i: usize = 0;
    assert(branches@.take(0) =~= seq![]);
    assert(start + branch_marks(*s, *sel, prefix@, branches@.take(0)) =~= start);
    while i < branches.len()
        invariant
            reach.covers(*s, *sel),
            i <= branches@.len(),
            mark_views(out@) == start + branch_marks(
                *s,
                *sel,
                prefix@,
                branches@.take(i as int),
            ),
        decreases branches@.len() - i,
    {
        let ghost before = mark_views(out@);
        let ghost done = branch_marks(*s, *sel, prefix@, branches@.take(i as int));
        assert(branches@.take(i + 1).drop_last() =~= branches@.take(i as int));
        assert(branches@.take(i + 1).last() == branches@[i as int]);
        let name = match &branches[i].name {
            BranchName::Text(name) => Some(name.as_str()),
            BranchName::NotText => Some("unknown"),
            BranchName::Unreadable => None,
        };
        match (name, branches[i].target) {
            (Some(name), Some(c)) => {
                if reach.shows(s, sel, c) {
                    let mut full = prefix.to_owned();
                    full.append(name);
                    let m = Mark { kind: MarkKind::Ref, name: full, target: c };
                    let ghost v = m@;
                    out.push(m);
                    assert(mark_views(out@) =~= before.push(v));
                    assert(before.push(v) =~= start + done.push(v));
                }
            },
            _ => {},
        }
        i = i + 1;
    }
    assert(branches@.take(i as int) =~= branches@);
}

/// Appends the marks of the checked out commit.
fn push_head_marks(s: &Snapshot, sel: &Selection, reach: &Reach, out: &mut Vec<Mark>)
    requires
        reach.covers(*s, *sel),
    ensures
        mark_views(final(out)@) == mark_views(old(out)@) + head_marks(*s, *sel),
{
    let ghost start = mark_views(out@);
    match s.head {
        Some(head) => {
            if reach.limit_allows(s, sel, head) {
                let m = Mark { kind: MarkKind::Checkout, name: String::new(), target: head };
                let ghost v = m@;
                assert(v.name =~= seq![]);
                out.push(m);
                let ghost with_checkout = mark_views(out@);
                assert(with_checkout =~= start.push(v));
                if sel.filter.should_include_head() {
                    let m = Mark { kind: MarkKind::Ref, name: "HEAD".to_owned(), target: head };
                    let ghost w = m@;
                    out.push(m);
                    assert(mark_views(out@) =~= with_checkout.push(w));
                }
            }
        },
        None => {},
    }
    assert(mark_views(out@) =~= start + head_marks(*s, *sel));
}

/// Appends the marks of stashes.
fn push_stash_marks(s: &Snapshot, sel: &Selection, reach: &Reach, out: &mut Vec<Mark>)
    requires
        reach.covers(*s, *sel),
    ensures
        mark_views(final(out)@) == mark_views(old(out)@) + stash_marks(*s, *sel, s.stashes@),
{
    let ghost start = mark_views(out@);
    let mut i: usize = 0;
    assert(s.stashes@.take(0) =~= seq![]);
    assert(start + stash_marks(*s, *sel, s.stashes@.take(0)) =~= start);
    while i < s.stashes.len()
        invariant
            reach.covers(*s, *sel),
            i <= s.stashes@.len(),
            mark_views(out@) == start + stash_marks(*s, *sel, s.stashes@.take(i as int)),
        decreases s.stashes@.len() - i,
    {
        let ghost before = mark_views(out@);
        let ghost done = stash_marks(*s, *sel, s.stashes@.take(i as int));
        assert(s.stashes@.take(i + 1).drop_last() =~= s.stashes@.take(i as int));
        let c = s.stashes[i];
        assert(s.stashes@.take(i + 1).last() == c);
        if reach.shows(s, sel, c) {
            let mut name = "stash@{".to_owned();
            let index = count_text(i);
            name.append(index.as_str());
            name.append("}");
            let m = Mark { kind: MarkKind::Stash, name, target: c };
            let ghost v = m@;
            out.push(m);
            assert(mark_views(out@) =~= before.push(v));
            assert(before.push(v) =~= start + done.push(v));
        }
        i = i + 1;
    }
    assert(s.stashes@.take(i as int) =~= s.stashes@);
}

/// Appends the marks of tags.
fn push_tag_marks(s: &Snapshot, sel: &Selection, reach: &Reach, out: &mut Vec<Mark>)
    requires
        reach.covers(*s, *sel),
    ensures
        mark_views(final(out)@) == mark_views(old(out)@) + tag_marks(*s, *sel, s.tags@),
{
    let ghost start = mark_views(out@);
    let mut i: usize = 0;
    assert(s.tags@.take(0) =~= seq![]);
    assert(start + tag_marks(*s, *sel, s.tags@.take(0)) =~= start);
    while i < s.tags.len()
        invariant
            reach.covers(*s, *sel),
            i <= s.tags@.len(),
            mark_views(out@) == start + tag_marks(*s, *sel, s.tags@.take(i as int)),
        decreases s.tags@.len() - i,
    {
        let ghost before = mark_views(out@);
        let ghost done = tag_marks(*s, *sel, s.tags@.take(i as int));
        assert(s.tags@.take(i + 1).drop_last() =~= s.tags@.take(i as int));
        assert(s.tags@.take(i + 1).last() == s.tags@[i as int]);
        let c = s.tags[i].target;
        if reach.shows(s, sel, c) {
            let m = Mark { kind: MarkKind::Tag, name: s.tags[i].name.clone(), target: c };
            let ghost v = m@;
            out.push(m);
            assert(mark_views(out@) =~= before.push(v));
            assert(before.push(v) =~= start + done.push(v));
        }
        i = i + 1;
    }
    assert(s.tags@.take(i as int) =~= s.tags@);
}

/// All marks of the part of a repository that is shown: local branches, remote ones, the checked
/// out commit, stashes and tags.
pub fn collect_marks(s: &Snapshot, sel: &Selection) -> (r: Vec<Mark>)
    ensures
        mark_views(r@) == all_marks(*s, *sel),
{
    let reach = Reach::new(s, sel);
    let mut out: Vec<Mark> = Vec::new();
    assert(mark_views(out@) =~= seq![]);
    if sel.filter.should_include_branches() {
        push_branch_marks(s, sel, &reach, "refs/heads/", &s.local, &mut out);
    }
    assert(mark_views(out@) =~= passed(
        sel.filter.branches,
        branch_marks(*s, *sel, "refs/heads/"@, s.local@),
    ));
    let ghost locals = mark_views(out@);
    if sel.filter.should_include_remotes() {
        push_branch_marks(s, sel, &reach, "refs/remotes/", &s.remote, &mut out);
    }
    assert(mark_views(out@) =~= locals + passed(
        sel.filter.remotes,
        branch_marks(*s, *sel, "refs/remotes/"@, s.remote@),
    ));
    push_head_marks(s, sel, &reach, &mut out);
    let ghost heads = mark_views(out@);
    if sel.filter.should_include_stashes() {
        push_stash_marks(s, sel, &reach, &mut out);
    }
    assert(mark_views(out@) =~= heads + passed(
        sel.filter.stashes,
        stash_marks(*s, *sel, s.stashes@),
    ));
    let ghost stashed = mark_views(out@);
    if sel.filter.should_include_tags() {
        push_tag_marks(s, sel, &reach, &mut out);
    }
    assert(mark_views(out@) =~= stashed + passed(sel.filter.tags, tag_marks(*s, *sel, s.tags@)));
    out
}

/// With `current_branch_only` and with a commit checked out, everything that is shown stands at
/// that commit or at an ancestor of it: branches, stashes and tags.
pub proof fn law_current_branch_shows_ancestors(s: Snapshot, sel: Selection, i: int)
    requires
        sel.current_branch_only,
        0 <= i < all_marks(s, sel).len(),
    ensures
        on_current_branch(s, all_marks(s, sel)[i].target),
{
    lemma_marks_are_shown(s, sel, i);
}

/// Under a limit every mark stands at one of the newest commits, and there are no more of those
/// than the limit says.
pub proof fn law_limit_bounds_the_marks(s: Snapshot, sel: Selection, i: int)
    requires
        sel.limit > 0,
        0 <= i < all_marks(s, sel).len(),
    ensures
        exists|j: int|
            0 <= j < s.newest@.len() && j < sel.limit && #[trigger] s.newest@[j] == all_marks(
                s,
                sel,
            )[i].target,
{
    lemma_marks_are_shown(s, sel, i);
}

/// Every mark stands at a commit where refs are shown.
proof fn lemma_marks_are_shown(s: Snapshot, sel: Selection, i: int)
    requires
        0 <= i < all_marks(s, sel).len(),
    ensures
        shows_ref(s, sel, all_marks(s, sel)[i].target),
{
    let all = all_marks(s, sel);
    let a = passed(sel.filter.branches, branch_marks(s, sel, "refs/heads/"@, s.local@));
    let b = passed(sel.filter.remotes, branch_marks(s, sel, "refs/remotes/"@, s.remote@));
    let c = head_marks(s, sel);
    let d = passed(sel.filter.stashes, stash_marks(s, sel, s.stashes@));
    let e = passed(sel.filter.tags, tag_marks(s, sel, s.tags@));
    lemma_branch_marks(s, sel, "refs/heads/"@, s.local@);
    lemma_branch_marks(s, sel, "refs/remotes/"@, s.remote@);
    lemma_stash_marks(s, sel, s.stashes@);
    lemma_tag_marks(s, sel, s.tags@);
    if s.head is Some {
        history::lemma_reaches_self(s.history.parents(), s.head->0 as int);
    }
    if i < a.len() {
        assert(all[i] == a[i]);
    } else if i < a.len() + b.len() {
        assert(all[i] == b[i - a.len()]);
    } else if i < a.len() + b.len() + c.len() {
        assert(all[i] == c[i - a.len() - b.len()]);
    } else if i < a.len() + b.len() + c.len() + d.len() {
        assert(all[i] == d[i - a.len() - b.len() - c.len()]);
    } else {
        assert(all[i] == e[i - a.len() - b.len() - c.len() - d.len()]);
    }
}

proof fn lemma_branch_marks(
    s: Snapshot,
    sel: Selection,
    prefix: Seq<char>,
    branches: Seq<BranchRecord>,
)
    ensures
        forall|i: int|
            #![trigger branch_marks(s, sel, prefix, branches)[i]]
            0 <= i < branch_marks(s, sel, prefix, branches).len() ==> shows_ref(
                s,
                sel,
                branch_marks(s, sel, prefix, branches)[i].target,
            ),
    decreases branches.len(),
{
    if branches.len() > 0 {
        lemma_branch_marks(s, sel, prefix, branches.drop_last());
    }
}

proof fn lemma_stash_marks(s: Snapshot, sel: Selection, stashes: Seq<usize>)
    ensures
        forall|i: int|
            #![trigger stash_marks(s, sel, stashes)[i]]
            0 <= i < stash_marks(s, sel, stashes).len() ==> shows_ref(
                s,
                sel,
                stash_marks(s, sel, stashes)[i].target,
            ),
    decreases stashes.len(),
{
    if stashes.len() > 0 {
        lemma_stash_marks(s, sel, stashes.drop_last());
    }
}

proof fn lemma_tag_marks(s: Snapshot, sel: Selection, tags: Seq<TagRecord>)
    ensures
        forall|i: int|
            #![trigger tag_marks(s, sel, tags)[i]]
            0 <= i < tag_marks(s, sel, tags).len() ==> shows_ref(
                s,
                sel,
                tag_marks(s, sel, tags)[i].target,
            ),
    decreases tags.len(),
{
    if tags.len() > 0 {
        lemma_tag_marks(s, sel, tags.drop_last());
    }
}

// ---------------------------------------------------------------------------------------------
// Which marks there are
// ---------------------------------------------------------------------------------------------

/// Whether a ref at `c` has a place in the graph: under a limit `c` is among that many newest
/// commits, and where only the current branch is shown, the checked out commit reaches it.
pub open spec fn has_place(s: Snapshot, sel: Selection, c: usize) -> bool {
    &&& sel.limit == 0 || exists|i: int|
        0 <= i < s.newest@.len() && i < sel.limit && #[trigger] s.newest@[i] == c
    &&& !sel.current_branch_only || s.head is None || history::reaches(
        s.history.parents(),
        s.head->0 as int,
        c as int,
    )
}

/// Whether one of the branches has the given text for its name, and its tip at `c`.
pub open spec fn names_branch(branches: Seq<BranchRecord>, name: Seq<char>, c: usize) -> bool {
    exists|i: int|
        0 <= i < branches.len() && (#[trigger] branches[i]).target == Some(c)
            && match branches[i].name {
            BranchName::Text(text) => text@ == name,
            BranchName::NotText => name == "unknown"@,
            BranchName::Unreadable => false,
        }
}

/// Whether one of the tags has the given name, and leads to `c`.
pub open spec fn names_tag(tags: Seq<TagRecord>, name: Seq<char>, c: usize) -> bool {
    exists|i: int| 0 <= i < tags.len() && (#[trigger] tags[i]).target == c && tags[i].name@ == name
}

/// Whether one of the stashes, numbered from the newest, has the given name, and is `c`.
pub open spec fn names_stash(stashes: Seq<usize>, name: Seq<char>, c: usize) -> bool {
    exists|i: int|
        0 <= i < stashes.len() && #[trigger] stashes[i] == c && name == "stash@{"@
            + number::decimal(i as nat) + "}"@
}

proof fn lemma_push_holds(before: Seq<MarkView>, more: Seq<MarkView>, m: MarkView, x: MarkView)
    requires
        more == before.push(x),
    ensures
        more.contains(m) <==> before.contains(m) || m == x,
{
    if before.contains(m) {
        let i = choose|i: int| 0 <= i < before.len() && before[i] == m;
        assert(more[i] == m);
    }
    if m == x {
        assert(more[before.len() as int] == m);
    }
    if more.contains(m) {
        let i = choose|i: int| 0 <= i < more.len() && more[i] == m;
        if i < before.len() {
            assert(before[i] == m);
        }
    }
}

proof fn lemma_branch_marked(
    s: Snapshot,
    sel: Selection,
    prefix: Seq<char>,
    branches: Seq<BranchRecord>,
    m: MarkView,
    name: Seq<char>,
)
    requires
        m.name == prefix + name,
    ensures
        branch_marks(s, sel, prefix, branches).contains(m) <==> m.kind == MarkKind::Ref && has_place(
            s,
            sel,
            m.target,
        ) && names_branch(branches, name, m.target),
    decreases branches.len(),
{
    if branches.len() > 0 {
        let first = branches.drop_last();
        let b = branches.last();
        assert(branches[branches.len() - 1] == b);
        assert(forall|i: int| 0 <= i < first.len() ==> first[i] == branches[i]);
        lemma_branch_marked(s, sel, prefix, first, m, name);
        let before = branch_marks(s, sel, prefix, first);
        let more = branch_marks(s, sel, prefix, branches);
        if names_branch(first, name, m.target) {
            let i = choose|i: int|
                0 <= i < first.len() && (#[trigger] first[i]).target == Some(m.target)
                    && match first[i].name {
                    BranchName::Text(text) => text@ == name,
                    BranchName::NotText => name == "unknown"@,
                    BranchName::Unreadable => false,
                };
            assert(branches[i] == first[i]);
        }
        if names_branch(branches, name, m.target) {
            let i = choose|i: int|
                0 <= i < branches.len() && (#[trigger] branches[i]).target == Some(m.target)
                    && match branches[i].name {
                    BranchName::Text(text) => text@ == name,
                    BranchName::NotText => name == "unknown"@,
                    BranchName::Unreadable => false,
                };
            if i < first.len() {
                assert(first[i] == branches[i]);
            }
        }
        match (branch_text(b.name), b.target) {
            (Some(text), Some(c)) => {
                if shows_ref(s, sel, c) {
                    let x = MarkView { kind: MarkKind::Ref, name: prefix + text, target: c };
                    lemma_push_holds(before, more, m, x);
                    if prefix + text == prefix + name {
                        assert(text =~= (prefix + text).skip(prefix.len() as int));
                        assert(name =~= (prefix + name).skip(prefix.len() as int));
                    }
                }
            },
            _ => {},
        }
    }
}

/// Every mark of branches has their prefix.
proof fn lemma_branch_prefix(
    s: Snapshot,
    sel: Selection,
    prefix: Seq<char>,
    branches: Seq<BranchRecord>,
    m: MarkView,
)
    ensures
        branch_marks(s, sel, prefix, branches).contains(m) ==> prefix.is_prefix_of(m.name) && m.name
            == prefix + m.name.skip(prefix.len() as int),
    decreases branches.len(),
{
    if branches.len() > 0 {
        let first = branches.drop_last();
        let b = branches.last();
        lemma_branch_prefix(s, sel, prefix, first, m);
        match (branch_text(b.name), b.target) {
            (Some(text), Some(c)) => {
                if shows_ref(s, sel, c) {
                    let x = MarkView { kind: MarkKind::Ref, name: prefix + text, target: c };
                    lemma_push_holds(
                        branch_marks(s, sel, prefix, first),
                        branch_marks(s, sel, prefix, branches),
                        m,
                        x,
                    );
                    if m == x {
                        assert(m.name.skip(prefix.len() as int) =~= text);
                        assert(prefix =~= m.name.subrange(0, prefix.len() as int));
                    }
                }
            },
            _ => {},
        }
    }
}

proof fn lemma_stash_marked(s: Snapshot, sel: Selection, stashes: Seq<usize>, m: MarkView)
    ensures
        stash_marks(s, sel, stashes).contains(m) <==> m.kind == MarkKind::Stash && has_place(
            s,
            sel,
            m.target,
        ) && names_stash(stashes, m.name, m.target),
    decreases stashes.len(),
{
    if stashes.len() > 0 {
        let first = stashes.drop_last();
        let c = stashes.last();
        let n = stashes.len() - 1;
        assert(stashes[n] == c);
        assert(forall|i: int| 0 <= i < first.len() ==> first[i] == stashes[i]);
        lemma_stash_marked(s, sel, first, m);
        if names_stash(first, m.name, m.target) {
            let i = choose|i: int|
                0 <= i < first.len() && #[trigger] first[i] == m.target && m.name == "stash@{"@
                    + number::decimal(i as nat) + "}"@;
            assert(stashes[i] == first[i]);
        }
        if names_stash(stashes, m.name, m.target) {
            let i = choose|i: int|
                0 <= i < stashes.len() && #[trigger] stashes[i] == m.target && m.name == "stash@{"@
                    + number::decimal(i as nat) + "}"@;
            if i < first.len() {
                assert(first[i] == stashes[i]);
            }
        }
        if shows_ref(s, sel, c) {
            let x = MarkView { kind: MarkKind::Stash, name: stash_name(n as nat), target: c };
            lemma_push_holds(stash_marks(s, sel, first), stash_marks(s, sel, stashes), m, x);
        }
    }
}

proof fn lemma_tag_marked(s: Snapshot, sel: Selection, tags: Seq<TagRecord>, m: MarkView)
    ensures
        tag_marks(s, sel, tags).contains(m) <==> m.kind == MarkKind::Tag && has_place(
            s,
            sel,
            m.target,
        ) && names_tag(tags, m.name, m.target),
    decreases tags.len(),
{
    if tags.len() > 0 {
        let first = tags.drop_last();
        let t = tags.last();
        assert(tags[tags.len() - 1] == t);
        assert(forall|i: int| 0 <= i < first.len() ==> first[i] == tags[i]);
        lemma_tag_marked(s, sel, first, m);
        if names_tag(first, m.name, m.target) {
            let i = choose|i: int|
                0 <= i < first.len() && (#[trigger] first[i]).target == m.target && first[i].name@
                    == m.name;
            assert(tags[i] == first[i]);
        }
        if names_tag(tags, m.name, m.target) {
            let i = choose|i: int|
                0 <= i < tags.len() && (#[trigger] tags[i]).target == m.target && tags[i].name@
                    == m.name;
            if i < first.len() {
                assert(first[i] == tags[i]);
            }
        }
        if shows_ref(s, sel, t.target) {
            let x = MarkView { kind: MarkKind::Tag, name: t.name@, target: t.target };
            lemma_push_holds(tag_marks(s, sel, first), tag_marks(s, sel, tags), m, x);
        }
    }
}

proof fn lemma_sum_holds(a: Seq<MarkView>, b: Seq<MarkView>, m: MarkView)
    ensures
        (a + b).contains(m) <==> a.contains(m) || b.contains(m),
{
    if a.contains(m) {
        let i = choose|i: int| 0 <= i < a.len() && a[i] == m;
        assert((a + b)[i] == m);
    }
    if b.contains(m) {
        let i = choose|i: int| 0 <= i < b.len() && b[i] == m;
        assert((a + b)[a.len() + i] == m);
    }
    if (a + b).contains(m) {
        let i = choose|i: int| 0 <= i < (a + b).len() && (a + b)[i] == m;
        if i < a.len() {
            assert(a[i] == m);
        } else {
            assert(b[i - a.len()] == m);
        }
    }
}

/// What a repository shows: each branch, remote branch, stash and tag of a kind that the filter
/// lets pass and whose commit has a place in the graph, under its full name at its commit, and no
/// other. The checked out commit is marked wherever the limit leaves room for it, and named `HEAD`
/// where the filter lets that pass.
pub proof fn law_every_ref_is_marked(s: Snapshot, sel: Selection, m: MarkView)
    ensures
        m.kind == MarkKind::Ref ==> (all_marks(s, sel).contains(m) <==> {
            ||| sel.filter.branches && has_place(s, sel, m.target) && exists|name: Seq<char>|
                m.name == "refs/heads/"@ + name && #[trigger] names_branch(
                    s.local@,
                    name,
                    m.target,
                )
            ||| sel.filter.remotes && has_place(s, sel, m.target) && exists|name: Seq<char>|
                m.name == "refs/remotes/"@ + name && #[trigger] names_branch(
                    s.remote@,
                    name,
                    m.target,
                )
            ||| sel.filter.head && s.head == Some(m.target) && m.name == "HEAD"@ && has_place(
                s,
                sel,
                m.target,
            )
        }),
        m.kind == MarkKind::Stash ==> (all_marks(s, sel).contains(m) <==> sel.filter.stashes
            && has_place(s, sel, m.target) && names_stash(s.stashes@, m.name, m.target)),
        m.kind == MarkKind::Tag ==> (all_marks(s, sel).contains(m) <==> sel.filter.tags && has_place(
            s,
            sel,
            m.target,
        ) && names_tag(s.tags@, m.name, m.target)),
        m.kind == MarkKind::Checkout ==> (all_marks(s, sel).contains(m) <==> m.name.len() == 0
            && s.head == Some(m.target) && has_place(s, sel, m.target)),
{
    let local = passed(sel.filter.branches, branch_marks(s, sel, "refs/heads/"@, s.local@));
    let remote = passed(sel.filter.remotes, branch_marks(s, sel, "refs/remotes/"@, s.remote@));
    let head = head_marks(s, sel);
    let stashes = passed(sel.filter.stashes, stash_marks(s, sel, s.stashes@));
    let tags = passed(sel.filter.tags, tag_marks(s, sel, s.tags@));
    lemma_sum_holds(local, remote, m);
    lemma_sum_holds(local + remote, head, m);
    lemma_sum_holds(local + remote + head, stashes, m);
    lemma_sum_holds(local + remote + head + stashes, tags, m);
    lemma_stash_marked(s, sel, s.stashes@, m);
    lemma_tag_marked(s, sel, s.tags@, m);
    let a = "refs/heads/"@;
    let b = "refs/remotes/"@;
    lemma_branch_prefix(s, sel, a, s.local@, m);
    lemma_branch_prefix(s, sel, b, s.remote@, m);
    assert forall|name: Seq<char>| m.name == a + name implies branch_marks(
        s,
        sel,
        a,
        s.local@,
    ).contains(m) == (m.kind == MarkKind::Ref && has_place(s, sel, m.target)
        && #[trigger] names_branch(s.local@, name, m.target)) by {
        lemma_branch_marked(s, sel, a, s.local@, m, name);
    }
    assert forall|name: Seq<char>| m.name == b + name implies branch_marks(
        s,
        sel,
        b,
        s.remote@,
    ).contains(m) == (m.kind == MarkKind::Ref && has_place(s, sel, m.target)
        && #[trigger] names_branch(s.remote@, name, m.target)) by {
        lemma_branch_marked(s, sel, b, s.remote@, m, name);
    }
    if branch_marks(s, sel, a, s.local@).contains(m) {
        lemma_branch_marked(s, sel, a, s.local@, m, m.name.skip(a.len() as int));
    }
    if branch_marks(s, sel, b, s.remote@).contains(m) {
        lemma_branch_marked(s, sel, b, s.remote@, m, m.name.skip(b.len() as int));
    }
    match s.head {
        Some(c) => {
            if head.len() > 0 {
                assert(head[0].kind == MarkKind::Checkout && head[0].target == c
                    && head[0].name.len() == 0);
            }
            if head.len() > 1 {
                assert(head[1] == MarkView { kind: MarkKind::Ref, name: "HEAD"@, target: c });
            }
            history::lemma_reaches_self(s.history.parents(), c as int);
            if m.name.len() == 0 {
                assert(m.name =~= seq![]);
            }
            if m.target == c && has_place(s, sel, c) {
                assert(within_limit(s, sel, c));
                if m.kind == MarkKind::Checkout && m.name.len() == 0 {
                    assert(head[0] == m);
                    assert(head.contains(m));
                }
                if m.kind == MarkKind::Ref && sel.filter.head && m.name == "HEAD"@ {
                    assert(head[1] == m);
                    assert(head.contains(m));
                }
            }
        },
        None => {},
    }
}

} // verus!
