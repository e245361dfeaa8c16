//! Which kinds of refs a graph shows.

use vstd::prelude::*;

use crate::text::chars_of;

verus! {

/// The kinds of refs to show.
#[derive(Debug, Clone, Copy)]
pub struct RefFilter {
    pub branches: bool,
    pub remotes: bool,
    pub tags: bool,
    pub head: bool,
    pub stashes: bool,
}

/// Whether `c` is among the characters of `v`.
fn has_char(v: &Vec<char>, c: char) -> (r: bool)
    ensures
        r == v@.contains(c),
{
    let mut i: usize = 0;
    while i < v.len()
        invariant
            i <= v@.len(),
            forall|j: int| 0 <= j < i ==> v@[j] != c,
        decreases v@.len() - i,
    {
        if v[i] == c {
            return true;
        }
        i = i + 1;
    }
    false
}

impl RefFilter {
    /// Reads a filter such as `brt`: `b` stands for branches, `r` for remotes, `t` for tags, `h`
    /// for HEAD and `s` for stashes. Other characters mean nothing.
    pub fn from_string(filter_str: &str) -> (r: Self)
        ensures
            r.branches == filter_str@.contains('b'),
            r.remotes == filter_str@.contains('r'),
            r.tags == filter_str@.contains('t'),
            r.head == filter_str@.contains('h'),
            r.stashes == filter_str@.contains('s'),
    {
        let v = chars_of(filter_str);
        RefFilter {
            branches: has_char(&v, 'b'),
            remotes: has_char(&v, 'r'),
            tags: has_char(&v, 't'),
            head: has_char(&v, 'h'),
            stashes: has_char(&v, 's'),
        }
    }

    /// Whether local branches are shown.
    pub fn should_include_branches(&self) -> (r: bool)
        ensures
            r == self.branches,
    {
        self.branches
    }

    /// Whether remote-tracking branches are shown.
    pub fn should_include_remotes(&self) -> (r: bool)
        ensures
            r == self.remotes,
    {
        self.remotes
    }

    /// Whether tags are shown.
    pub fn should_include_tags(&self) -> (r: bool)
        ensures
            r == self.tags,
    {
        self.tags
    }

    /// Whether HEAD is shown as a ref of its own.
    pub fn should_include_head(&self) -> (r: bool)
        ensures
            r == self.head,
    {
        self.head
    }

    /// Whether stashes are shown.
    pub fn should_include_stashes(&self) -> (r: bool)
        ensures
            r == self.stashes,
    {
        self.stashes
    }
}

} // verus!
