//! The list of recently opened projects, most recent first.

use vstd::prelude::*;
use crate::clock::now_millis;

verus! {

/// A recently opened project.
#[derive(Debug, Clone)]
pub struct RecentProject {
    /// Full path to the project file.
    pub file_path: String,
    /// Project title for display.
    pub title: Option<String>,
    /// Last opened timestamp (Unix timestamp in milliseconds, UTC).
    pub last_opened: i64,
}

impl RecentProject {
    /// Creates a new entry, opened now.
    pub fn new(file_path: String, title: Option<String>) -> (r: Self)
        ensures
            r.file_path == file_path,
            r.title == title,
    {
        RecentProject::opened_at(file_path, title, now_millis())
    }

    /// A new entry opened at `now` (milliseconds since the Unix epoch).
    pub fn opened_at(file_path: String, title: Option<String>, now: i64) -> (r: Self)
        ensures
            r == (RecentProject { file_path, title, last_opened: now }),
    {
        RecentProject { file_path, title, last_opened: now }
    }

    /// Updates the last-opened timestamp to now.
    pub fn touch(&mut self)
        ensures
            final(self).file_path == old(self).file_path,
            final(self).title == old(self).title,
    {
        self.touch_at(now_millis());
    }

    /// Sets the last-opened timestamp to `now` (milliseconds since the Unix epoch).
    pub fn touch_at(&mut self, now: i64)
        ensures
            *final(self) == (RecentProject { last_opened: now, ..*old(self) }),
    {
        self.last_opened = now;
    }
}

/// The position of the first entry for `path`, if there is one.
pub open spec fn position_of(items: Seq<RecentProject>, path: Seq<char>) -> Option<int>
    decreases items.len(),
{
    if items.len() == 0 {
        None
    } else if items[0].file_path@ == path {
        Some(0)
    } else {
        match position_of(items.drop_first(), path) {
            Some(i) => Some(i + 1),
            None => None,
        }
    }
}

/// The entries whose path is not `path`, in order.
pub open spec fn without_path(items: Seq<RecentProject>, path: Seq<char>) -> Seq<RecentProject>
    decreases items.len(),
{
    if items.len() == 0 {
        items
    } else {
        let rest = without_path(items.drop_last(), path);
        if items.last().file_path@ == path {
            rest
        } else {
            rest.push(items.last())
        }
    }
}

/// No two entries have the same path.
pub open spec fn distinct_paths(items: Seq<RecentProject>) -> bool {
    forall|i: int, j: int|
        0 <= i < j < items.len() ==> #[trigger] items[i].file_path@ != #[trigger] items[j].file_path@
}

/// The list of recently opened projects, sorted by last opened (most recent first).
#[derive(Debug, Clone)]
pub struct RecentProjects {
    /// The entries, most recent first.
    pub items: Vec<RecentProject>,
    /// Maximum number of entries to keep.
    pub max_items: usize,
}

/// `after` is the list `before` once `path` was added with `title`: an entry already there
/// moves to the front, taking `title` when it is `Some`; a new entry goes to the front and
/// the list is then cut to its maximum length.
pub open spec fn added(
    before: RecentProjects,
    after: RecentProjects,
    path: Seq<char>,
    title: Option<String>,
) -> bool {
    &&& after.max_items == before.max_items
    &&& match position_of(before.items@, path) {
        Some(i) => {
            &&& after.items@.len() == before.items@.len()
            &&& after.items@[0].file_path@ == path
            &&& after.items@[0].title == (if title is Some {
                title
            } else {
                before.items@[i].title
            })
            &&& after.items@.drop_first() == before.items@.remove(i)
        },
        None => {
            let n = if before.items@.len() + 1 > before.max_items {
                before.max_items as int
            } else {
                before.items@.len() + 1int
            };
            &&& after.items@.len() == n
            &&& n > 0 ==> {
                &&& after.items@[0].file_path@ == path
                &&& after.items@[0].title == title
                &&& after.items@.drop_first() == before.items@.take(n - 1)
            }
        },
    }
}

/// `after` is the list `before` once `path` was added with `title` at `now`: as `added`
/// says, and the entry in front was opened at `now`.
pub open spec fn added_at(
    before: RecentProjects,
    after: RecentProjects,
    path: Seq<char>,
    title: Option<String>,
    now: i64,
) -> bool {
    &&& added(before, after, path, title)
    &&& after.items@.len() > 0 ==> after.items@[0].last_opened == now
}

/// The entries are ordered by the time they were last opened, most recent first.
pub open spec fn most_recent_first(items: Seq<RecentProject>) -> bool {
    forall|i: int, j: int|
        0 <= i < j < items.len() ==> #[trigger] items[i].last_opened >= #[trigger] items[j].last_opened
}

impl RecentProjects {
    /// The list is well formed: no path twice, and no more entries than the maximum.
    pub open spec fn wf(&self) -> bool {
        &&& distinct_paths(self.items@)
        &&& self.items@.len() <= self.max_items
    }

    /// Creates an empty list that keeps at most `max_items` entries.
    pub fn new(max_items: usize) -> (r: Self)
        ensures
            r.items@.len() == 0,
            r.max_items == max_items,
            r.wf(),
    {
        RecentProjects { items: Vec::new(), max_items }
    }

    /// Adds or updates an entry. An entry already in the list moves to the front with an
    /// updated timestamp, and takes `title` when `title` is `Some`; a new entry goes to the
    /// front, and the list is then cut to `max_items` entries.
    pub fn add(&mut self, file_path: String, title: Option<String>)
        ensures
            added(*old(self), *final(self), file_path@, title),
            old(self).wf() ==> final(self).wf(),
    {
        self.add_at(file_path, title, now_millis());
    }

    /// Adds or updates an entry opened at `now` (milliseconds since the Unix epoch), as
    /// `add` does.
    pub fn add_at(&mut self, file_path: String, title: Option<String>, now: i64)
        ensures
            added_at(*old(self), *final(self), file_path@, title, now),
            old(self).wf() ==> final(self).wf(),
    {
        let mut pos: usize = 0;
        while pos < self.items.len() && !(self.items[pos].file_path == file_path)
            invariant
                pos <= self.items.len(),
                forall|q: int| 0 <= q < pos ==> (#[trigger] self.items@[q]).file_path@ != file_path@,
            decreases self.items.len() - pos,
        {
            pos += 1;
        }
        proof {
            lemma_position_of_scan(self.items@, file_path@, pos as int);
        }
        let ghost old_items = self.items@;
        if pos < self.items.len() {
            let mut existing = self.items.remove(pos);
            existing.touch_at(now);
            if title.is_some() {
                existing.title = title;
            }
            self.items.insert(0, existing);
            proof {
                assert(self.items@.drop_first() =~= old_items.remove(pos as int));
                if old(self).wf() {
                    assert forall|i: int, j: int|
                        0 <= i < j < self.items@.len() implies #[trigger] self.items@[i].file_path@
                        != #[trigger] self.items@[j].file_path@ by {
                        if i == 0 {
                            let jj = if j - 1 < pos {
                                j - 1
                            } else {
                                j
                            };
                            assert(self.items@[j] == old_items[jj]);
                            assert(old_items[pos as int].file_path@ == file_path@);
                        } else {
                            let ii = if i - 1 < pos {
                                i - 1
                            } else {
                                i
                            };
                            let jj = if j - 1 < pos {
                                j - 1
                            } else {
                                j
                            };
                            assert(self.items@[i] == old_items[ii]);
                            assert(self.items@[j] == old_items[jj]);
                        }
                    }
                }
            }
        } else {
            let entry = RecentProject::opened_at(file_path, title, now);
            self.items.insert(0, entry);
            let ghost inserted = self.items@;
            if self.items.len() > self.max_items {
                self.items.truncate(self.max_items);
            }
            proof {
                let n = self.items@.len();
                assert(self.items@ =~= inserted.take(n as int));
                if n > 0 {
                    assert(self.items@.drop_first() =~= old_items.take(n - 1));
                }
                if old(self).wf() {
                    assert forall|i: int, j: int|
                        0 <= i < j < self.items@.len() implies #[trigger] self.items@[i].file_path@
                        != #[trigger] self.items@[j].file_path@ by {
                        if i == 0 {
                            assert(self.items@[j] == old_items[j - 1]);
                            assert(old_items[j - 1].file_path@ != file_path@);
                        } else {
                            assert(self.items@[i] == old_items[i - 1]);
                            assert(self.items@[j] == old_items[j - 1]);
                        }
                    }
                }
            }
        }
    }

    /// Removes the entries for `file_path`.
    pub fn remove(&mut self, file_path: &str)
        ensures
            final(self).max_items == old(self).max_items,
            final(self).items@ == without_path(old(self).items@, file_path@),
            forall|i: int|
                0 <= i < final(self).items@.len() ==> (#[trigger] final(self).items@[i]).file_path@
                    != file_path@,
            old(self).wf() ==> final(self).wf(),
    {
        let mut kept: Vec<RecentProject> = Vec::new();
        let mut i: usize = 0;
        let ghost items = self.items@;
        assert(kept@ =~= without_path(items.take(0), file_path@));
        while i < self.items.len()
            invariant
                i <= self.items.len(),
                items == self.items@,
                kept@ == without_path(items.take(i as int), file_path@),
            decreases self.items.len() - i,
        {
            assert(items.take(i + 1).drop_last() =~= items.take(i as int));
            if !crate::text::str_eq(self.items[i].file_path.as_str(), file_path) {
                kept.push(self.items[i].clone_entry());
            }
            i += 1;
        }
        assert(items.take(items.len() as int) =~= items);
        self.items = kept;
        proof {
            lemma_without_path_sub(items, file_path@);
            if old(self).wf() {
                assert forall|a: int, b: int|
                    0 <= a < b < self.items@.len() implies #[trigger] self.items@[a].file_path@
                    != #[trigger] self.items@[b].file_path@ by {
                    lemma_without_path_order(items, file_path@, a, b);
                }
            }
        }
    }

    /// Removes every entry.
    pub fn clear(&mut self)
        ensures
            final(self).items@.len() == 0,
            final(self).max_items == old(self).max_items,
            final(self).wf(),
    {
        self.items.clear();
    }

    /// The entries, most recent first.
    pub fn get_items(&self) -> (r: &[RecentProject])
        ensures
            r@ == self.items@,
    {
        self.items.as_slice()
    }
}

impl RecentProject {
    /// A copy of this entry.
    pub fn clone_entry(&self) -> (r: Self)
        ensures
            r == *self,
    {
        let title = match &self.title {
            Some(t) => Some(t.clone()),
            None => None,
        };
        RecentProject { file_path: self.file_path.clone(), title, last_opened: self.last_opened }
    }
}

impl Default for RecentProjects {
    /// An empty list that keeps at most ten entries.
    fn default() -> (r: Self)
        ensures
            r.items@.len() == 0,
            r.max_items == 10,
    {
        Self::new(10)
    }
}

proof fn lemma_position_of_scan(items: Seq<RecentProject>, path: Seq<char>, pos: int)
    requires
        0 <= pos <= items.len(),
        forall|q: int| 0 <= q < pos ==> (#[trigger] items[q]).file_path@ != path,
        pos < items.len() ==> items[pos].file_path@ == path,
    ensures
        position_of(items, path) == (if pos < items.len() {
            Some(pos)
        } else {
            None::<int>
        }),
    decreases items.len(),
{
    if items.len() > 0 {
        if pos > 0 {
            assert forall|q: int| 0 <= q < pos - 1 implies (#[trigger] items.drop_first()[q]).file_path@
                != path by {
                assert(items.drop_first()[q] == items[q + 1]);
            }
            lemma_position_of_scan(items.drop_first(), path, pos - 1);
        }
    }
}

proof fn lemma_position_of_bounds(items: Seq<RecentProject>, path: Seq<char>)
    ensures
        position_of(items, path) matches Some(p) ==> 0 <= p < items.len(),
    decreases items.len(),
{
    if items.len() > 0 {
        lemma_position_of_bounds(items.drop_first(), path);
    }
}

proof fn lemma_position_of_none(items: Seq<RecentProject>, path: Seq<char>, k: int)
    requires
        position_of(items, path) is None,
        0 <= k < items.len(),
    ensures
        items[k].file_path@ != path,
    decreases k,
{
    if k > 0 {
        lemma_position_of_none(items.drop_first(), path, k - 1);
    }
}

/// Every entry kept is an entry of the input, its path is not `path`, and the input order is
/// kept.
proof fn lemma_without_path_sub(items: Seq<RecentProject>, path: Seq<char>)
    ensures
        without_path(items, path).len() <= items.len(),
        forall|a: int|
            0 <= a < without_path(items, path).len() ==> #[trigger] without_path(items, path)[a].file_path@
                != path,
    decreases items.len(),
{
    if items.len() > 0 {
        lemma_without_path_sub(items.drop_last(), path);
    }
}

proof fn lemma_without_path_order(items: Seq<RecentProject>, path: Seq<char>, a: int, b: int)
    requires
        distinct_paths(items),
        0 <= a < b < without_path(items, path).len(),
    ensures
        without_path(items, path)[a].file_path@ != without_path(items, path)[b].file_path@,
    decreases items.len(),
{
    lemma_without_path_sub(items.drop_last(), path);
    let rest = without_path(items.drop_last(), path);
    assert(distinct_paths(items.drop_last()));
    if b < rest.len() {
        lemma_without_path_order(items.drop_last(), path, a, b);
    } else {
        lemma_without_path_member(items.drop_last(), path, a);
        let k = choose|k: int|
            0 <= k < items.drop_last().len() && items.drop_last()[k] == rest[a];
        assert(items[k] == rest[a]);
    }
}

proof fn lemma_without_path_member(items: Seq<RecentProject>, path: Seq<char>, a: int)
    requires
        0 <= a < without_path(items, path).len(),
    ensures
        exists|k: int| 0 <= k < items.len() && items[k] == without_path(items, path)[a],
    decreases items.len(),
{
    lemma_without_path_sub(items.drop_last(), path);
    let rest = without_path(items.drop_last(), path);
    if a < rest.len() {
        lemma_without_path_member(items.drop_last(), path, a);
        let k = choose|k: int|
            0 <= k < items.drop_last().len() && items.drop_last()[k] == rest[a];
        assert(items[k] == rest[a]);
    } else {
        assert(items[items.len() - 1] == without_path(items, path)[a]);
    }
}

/// Without entries for a path that none has, the list is unchanged.
proof fn lemma_without_absent_path(items: Seq<RecentProject>, path: Seq<char>)
    requires
        forall|k: int| 0 <= k < items.len() ==> (#[trigger] items[k]).file_path@ != path,
    ensures
        without_path(items, path) == items,
    decreases items.len(),
{
    if items.len() > 0 {
        lemma_without_absent_path(items.drop_last(), path);
        assert(items.drop_last().push(items.last()) =~= items);
    }
}

/// An entry for `path` in front is dropped along with the others for `path`.
proof fn lemma_without_path_front(x: RecentProject, items: Seq<RecentProject>, path: Seq<char>)
    requires
        x.file_path@ == path,
    ensures
        without_path(seq![x] + items, path) == without_path(items, path),
    decreases items.len(),
{
    let s = seq![x] + items;
    if items.len() == 0 {
        assert(s.drop_last() =~= Seq::<RecentProject>::empty());
        assert(s.last() == x);
        assert(without_path(s.drop_last(), path) =~= Seq::<RecentProject>::empty());
        assert(without_path(s, path) =~= without_path(items, path));
    } else {
        assert(s.drop_last() =~= seq![x] + items.drop_last());
        assert(s.last() == items.last());
        lemma_without_path_front(x, items.drop_last(), path);
        assert(without_path(s, path) =~= without_path(items, path));
    }
}

/// Adding an entry at a time no earlier than any entry of the list keeps the list most
/// recent first.
pub proof fn lemma_add_keeps_most_recent_first(
    before: RecentProjects,
    after: RecentProjects,
    path: Seq<char>,
    title: Option<String>,
    now: i64,
)
    requires
        added_at(before, after, path, title, now),
        most_recent_first(before.items@),
        forall|k: int| 0 <= k < before.items@.len() ==> (#[trigger] before.items@[k]).last_opened <= now,
    ensures
        most_recent_first(after.items@),
{
    let b = before.items@;
    let a = after.items@;
    assert forall|i: int, j: int| 0 <= i < j < a.len() implies #[trigger] a[i].last_opened
        >= #[trigger] a[j].last_opened by {
        assert(a[j] == a.drop_first()[j - 1]);
        match position_of(b, path) {
            Some(p) => {
                lemma_position_of_bounds(b, path);
                assert(a.drop_first() == b.remove(p));
                let jj = if j - 1 < p {
                    j - 1
                } else {
                    j
                };
                assert(a.drop_first()[j - 1] == b.remove(p)[j - 1]);
                assert(a[j] == b[jj]);
                if i > 0 {
                    assert(a[i] == a.drop_first()[i - 1]);
                    let ii = if i - 1 < p {
                        i - 1
                    } else {
                        i
                    };
                    assert(a.drop_first()[i - 1] == b.remove(p)[i - 1]);
                    assert(a[i] == b[ii]);
                }
            },
            None => {
                let n = a.len();
                assert(a.drop_first() == b.take(n - 1));
                assert(a[j] == b[j - 1]);
                if i > 0 {
                    assert(a[i] == a.drop_first()[i - 1]);
                    assert(a[i] == b[i - 1]);
                }
            },
        }
    }
}

/// Removing a path right after adding it as a new entry gives back the list as it was,
/// when the list had room for one more entry.
pub proof fn lemma_remove_undoes_add(
    before: RecentProjects,
    after: RecentProjects,
    path: Seq<char>,
    title: Option<String>,
)
    requires
        added(before, after, path, title),
        position_of(before.items@, path) is None,
        before.items@.len() < before.max_items,
    ensures
        without_path(after.items@, path) == before.items@,
{
    let a = after.items@;
    assert(a =~= seq![a[0]] + a.drop_first());
    assert(before.items@.take(before.items@.len() as int) =~= before.items@);
    lemma_without_path_front(a[0], a.drop_first(), path);
    assert forall|k: int| 0 <= k < before.items@.len() implies (#[trigger] before.items@[k]).file_path@
        != path by {
        lemma_position_of_none(before.items@, path, k);
    }
    lemma_without_absent_path(before.items@, path);
}

} // verus!
