//! From a device's path to the name under which its counters are filed.
//!
//! The name is the final segment of the path. A few devices are reported
//! under another name than the one their counters carry; the alias table
//! holds those, so that a new one is a new entry and nothing else changes.

use crate::text::chars_of;
use vstd::prelude::*;
use vstd::string::*;

verus! {

/// Where the trailing run of characters other than `/` begins.
pub open spec fn segment_start(s: Seq<char>) -> int
    decreases s.len(),
{
    if s.len() == 0 || s.last() == '/' {
        s.len() as int
    } else {
        segment_start(s.drop_last())
    }
}

/// The segment `.`, which names the directory it stands in.
pub open spec fn is_current_dir(segment: Seq<char>) -> bool {
    segment.len() == 1 && segment[0] == '.'
}

/// The segment `..`, which names no file.
pub open spec fn is_parent_dir(segment: Seq<char>) -> bool {
    segment.len() == 2 && segment[0] == '.' && segment[1] == '.'
}

/// The final segment of a path, if it has one: trailing separators and
/// trailing `.` segments are passed over, the run of characters up to the
/// next separator is the segment, and `..` is none.
pub open spec fn leaf_name(path: Seq<char>) -> Option<Seq<char>>
    decreases path.len(),
{
    if path.len() == 0 {
        None
    } else if path.last() == '/' {
        leaf_name(path.drop_last())
    } else {
        let start = segment_start(path);
        let segment = path.subrange(start, path.len() as int);
        if 0 <= start < path.len() && is_current_dir(segment) {
            leaf_name(path.subrange(0, start))
        } else if is_parent_dir(segment) {
            None
        } else {
            Some(segment)
        }
    }
}

/// The trailing segment starts inside the path, holds no separator, and
/// stands at the path's start or behind a separator.
pub proof fn lemma_segment_start(s: Seq<char>)
    ensures
        0 <= segment_start(s) <= s.len(),
        forall|i: int| segment_start(s) <= i < s.len() ==> s[i] != '/',
        segment_start(s) == 0 || s[segment_start(s) - 1] == '/',
        s.len() > 0 && s.last() != '/' ==> segment_start(s) < s.len(),
    decreases s.len(),
{
    if s.len() == 0 || s.last() == '/' {
    } else {
        let rest = s.drop_last();
        lemma_segment_start(rest);
        assert forall|i: int| segment_start(s) <= i < s.len() implies s[i] != '/' by {
            if i < rest.len() {
                assert(rest[i] != '/');
            }
        }
    }
}

/// A name that `leaf_name` gives is not empty and holds no separator.
pub proof fn law_leaf_name_is_a_segment(path: Seq<char>)
    ensures
        match leaf_name(path) {
            Some(name) => name.len() > 0 && !name.contains('/') && !is_current_dir(name)
                && !is_parent_dir(name),
            None => true,
        },
    decreases path.len(),
{
    if path.len() == 0 {
    } else if path.last() == '/' {
        law_leaf_name_is_a_segment(path.drop_last());
    } else {
        lemma_segment_start(path);
        let start = segment_start(path);
        let segment = path.subrange(start, path.len() as int);
        if is_current_dir(segment) {
            law_leaf_name_is_a_segment(path.subrange(0, start));
        }
    }
}

/// Behind a separator, or at the start of a path, a run of characters
/// without a separator is the trailing segment.
proof fn lemma_segment_start_of_run(before: Seq<char>, run: Seq<char>)
    requires
        before.len() == 0 || before.last() == '/',
        !run.contains('/'),
    ensures
        segment_start(before + run) == before.len(),
    decreases run.len(),
{
    if run.len() == 0 {
        assert(before + run =~= before);
    } else {
        assert(run.last() != '/') by {
            assert(run[run.len() - 1] == run.last());
        }
        assert((before + run).drop_last() =~= before + run.drop_last());
        assert(!run.drop_last().contains('/')) by {
            if run.drop_last().contains('/') {
                let i = choose|i: int| 0 <= i < run.drop_last().len() && run.drop_last()[i] == '/';
                assert(run[i] == '/');
            }
        }
        lemma_segment_start_of_run(before, run.drop_last());
    }
}

/// The leaf of a path that ends in a plain file name is that file name,
/// whatever directory stands before it: `leaf` alone, or `directory`, a
/// separator and `leaf`.
pub proof fn law_leaf_of_a_plain_path(directory: Seq<char>, leaf: Seq<char>)
    requires
        leaf.len() > 0,
        !leaf.contains('/'),
        !is_current_dir(leaf),
        !is_parent_dir(leaf),
    ensures
        leaf_name(leaf) == Some(leaf),
        leaf_name(directory.push('/') + leaf) == Some(leaf),
{
    assert(leaf.last() != '/') by {
        assert(leaf[leaf.len() - 1] == leaf.last());
    }
    let alone = Seq::<char>::empty() + leaf;
    assert(alone =~= leaf);
    lemma_segment_start_of_run(Seq::empty(), leaf);
    assert(leaf.subrange(0, leaf.len() as int) =~= leaf);
    let before = directory.push('/');
    let path = before + leaf;
    lemma_segment_start_of_run(before, leaf);
    assert(path.subrange(before.len() as int, path.len() as int) =~= leaf);
    assert(path.last() == leaf.last());
}

/// The final segment of a device's path.
pub fn device_leaf(path: &str) -> (leaf: Option<String>)
    ensures
        match leaf {
            Some(name) => leaf_name(path@) == Some(name@),
            None => leaf_name(path@) is None,
        },
{
    let chars = chars_of(path);
    let mut end: usize = chars.len();
    assert(path@.take(end as int) =~= path@);
    while end > 0
        invariant
            end <= chars.len(),
            chars@ == path@,
            leaf_name(path@) == leaf_name(path@.take(end as int)),
        decreases end,
    {
        let ghost prefix = path@.take(end as int);
        if chars[end - 1] == '/' {
            assert(prefix.drop_last() =~= path@.take(end - 1));
            end -= 1;
        } else {
            let mut start: usize = end;
            while start > 0 && chars[start - 1] != '/'
                invariant
                    start <= end <= chars.len(),
                    chars@ == path@,
                    segment_start(path@.take(end as int)) == segment_start(
                        path@.take(start as int),
                    ),
                decreases start,
            {
                assert(path@.take(start as int).drop_last() =~= path@.take(start - 1));
                start -= 1;
            }
            proof {
                lemma_segment_start(prefix);
                assert(prefix.subrange(0, start as int) =~= path@.take(start as int));
                assert(prefix.subrange(start as int, end as int) =~= path@.subrange(
                    start as int,
                    end as int,
                ));
            }
            let len = end - start;
            if len == 1 && chars[start] == '.' {
                end = start;
            } else if len == 2 && chars[start] == '.' && chars[start + 1] == '.' {
                return None;
            } else {
                return Some(path.substring_char(start, end).to_owned());
            }
        }
    }
    None
}

/// One entry of the alias table: a device reported as `alias` has its
/// counters filed under `device`.
pub struct Alias {
    pub alias: String,
    pub device: String,
}

/// The alias table. Earlier entries win over later ones.
pub struct AliasTable {
    pub entries: Vec<Alias>,
}

/// The name under which the counters of `name` are filed: the device of the
/// first entry whose alias is `name`, or `name` itself where no entry has it.
pub open spec fn resolved(table: Seq<(Seq<char>, Seq<char>)>, name: Seq<char>) -> Seq<char>
    decreases table.len(),
{
    if table.len() == 0 {
        name
    } else if table[0].0 == name {
        table[0].1
    } else {
        resolved(table.drop_first(), name)
    }
}

/// The name under which the counters of the device at `path` are filed, if
/// the path has a final segment.
pub open spec fn logical_name(table: Seq<(Seq<char>, Seq<char>)>, path: Seq<char>) -> Option<
    Seq<char>,
> {
    match leaf_name(path) {
        Some(leaf) => Some(resolved(table, leaf)),
        None => None,
    }
}

impl View for AliasTable {
    type V = Seq<(Seq<char>, Seq<char>)>;

    open spec fn view(&self) -> Self::V {
        Seq::new(self.entries@.len(), |i: int| (self.entries@[i].alias@, self.entries@[i].device@))
    }
}

impl AliasTable {
    /// The table without entries: every name stands for itself.
    pub fn new() -> (table: AliasTable)
        ensures
            table@ == Seq::<(Seq<char>, Seq<char>)>::empty(),
    {
        let table = AliasTable { entries: Vec::new() };
        assert(table@ =~= Seq::empty());
        table
    }

    /// The aliases known so far: an encrypted root volume is reported as
    /// `cryptroot` and counted as `dm-0`.
    pub fn standard() -> (table: AliasTable)
        ensures
            table@ == seq![("cryptroot"@, "dm-0"@)],
    {
        let mut table = AliasTable::new();
        table.add("cryptroot", "dm-0");
        table
    }

    /// Adds an entry behind those that the table holds.
    pub fn add(&mut self, alias: &str, device: &str)
        ensures
            final(self)@ == old(self)@.push((alias@, device@)),
    {
        self.entries.push(Alias { alias: alias.to_owned(), device: device.to_owned() });
        assert(self@ =~= old(self)@.push((alias@, device@)));
    }

    /// Looks a name up.
    pub fn resolve(&self, name: String) -> (device: String)
        ensures
            device@ == resolved(self@, name@),
    {
        let mut i: usize = 0;
        assert(self@.skip(0) =~= self@);
        while i < self.entries.len()
            invariant
                i <= self.entries.len(),
                resolved(self@, name@) == resolved(self@.skip(i as int), name@),
            decreases self.entries.len() - i,
        {
            assert(self@.skip(i as int).drop_first() =~= self@.skip(i + 1));
            if self.entries[i].alias == name {
                return self.entries[i].device.clone();
            }
            i += 1;
        }
        name
    }

    /// The name under which the counters of the device at `path` are filed.
    pub fn name_of(&self, path: &str) -> (name: Option<String>)
        ensures
            match name {
                Some(n) => logical_name(self@, path@) == Some(n@),
                None => logical_name(self@, path@) is None,
            },
    {
        match device_leaf(path) {
            Some(leaf) => Some(self.resolve(leaf)),
            None => None,
        }
    }
}

} // verus!
