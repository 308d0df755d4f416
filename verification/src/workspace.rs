//! The word indexes of a workspace, one for each package root.
//!
//! A root gets its index when it is first asked for. A change to a file goes
//! into the index of every root that the file lies under.

use vstd::prelude::*;
use crate::index_laws::index_after_edit;
use crate::paths::{file_of, file_path, path_starts_with, starts_with};
use crate::position::LocationView;
use crate::word_index::{
    file_views, files_index, index_remove_file, index_rename_file, SourceFile,
    WordIndex,
};

verus! {

/// A package root with its word index.
pub struct RootIndex {
    pub root: String,
    pub index: WordIndex,
}

/// What a `RootIndex` stands for in contracts.
pub struct RootIndexView {
    pub root: Seq<char>,
    pub index: Map<Seq<char>, Seq<LocationView>>,
}

impl View for RootIndex {
    type V = RootIndexView;

    open spec fn view(&self) -> RootIndexView {
        RootIndexView { root: self.root@, index: self.index@ }
    }
}

/// The word indexes of the package roots that were asked for so far.
pub struct WordIndexMap {
    pub roots: Vec<RootIndex>,
}

impl View for WordIndexMap {
    type V = Seq<RootIndexView>;

    open spec fn view(&self) -> Seq<RootIndexView> {
        self.roots@.map_values(|r: RootIndex| r@)
    }
}

/// Whether the roots hold an index for `root`.
pub open spec fn has_root(roots: Seq<RootIndexView>, root: Seq<char>) -> bool {
    exists|i: int| 0 <= i < roots.len() && (#[trigger] roots[i]).root == root
}

/// The place of the first index for `root`.
pub open spec fn first_root(roots: Seq<RootIndexView>, root: Seq<char>) -> int
    decreases roots.len(),
{
    if roots.len() == 0 {
        0
    } else if roots[0].root == root {
        0
    } else {
        1 + first_root(roots.drop_first(), root)
    }
}

/// The roots with `change` made to the index of each root that the file
/// `path` lies under.
pub open spec fn changed_under(
    roots: Seq<RootIndexView>,
    path: Seq<char>,
    change: spec_fn(Map<Seq<char>, Seq<LocationView>>) -> Map<Seq<char>, Seq<LocationView>>,
) -> Seq<RootIndexView> {
    roots.map_values(
        |r: RootIndexView|
            if path_starts_with(path, r.root) {
                RootIndexView { root: r.root, index: change(r.index) }
            } else {
                r
            },
    )
}

/// The roots after the file `uri` changed from `old_text` to `new_text`.
pub open spec fn roots_after_edit(
    roots: Seq<RootIndexView>,
    uri: Seq<char>,
    old_text: Seq<char>,
    new_text: Seq<char>,
) -> Seq<RootIndexView> {
    changed_under(
        roots,
        file_of(uri),
        |m: Map<Seq<char>, Seq<LocationView>>| index_after_edit(m, uri, old_text, new_text),
    )
}

/// The roots after the file `uri` was deleted.
pub open spec fn roots_after_delete(roots: Seq<RootIndexView>, uri: Seq<char>) -> Seq<
    RootIndexView,
> {
    changed_under(
        roots,
        file_of(uri),
        |m: Map<Seq<char>, Seq<LocationView>>| index_remove_file(m, uri),
    )
}

/// The roots after the file `old_uri` was renamed to `new_uri`.
pub open spec fn roots_after_rename(
    roots: Seq<RootIndexView>,
    old_uri: Seq<char>,
    new_uri: Seq<char>,
) -> Seq<RootIndexView> {
    changed_under(
        roots,
        file_of(old_uri),
        |m: Map<Seq<char>, Seq<LocationView>>| index_rename_file(m, old_uri, new_uri),
    )
}

proof fn lemma_first_root(roots: Seq<RootIndexView>, root: Seq<char>)
    ensures
        0 <= first_root(roots, root) <= roots.len(),
        has_root(roots, root) <==> first_root(roots, root) < roots.len(),
        first_root(roots, root) < roots.len() ==> roots[first_root(roots, root)].root == root,
        forall|k: int| 0 <= k < first_root(roots, root) ==> (#[trigger] roots[k]).root != root,
    decreases roots.len(),
{
    if roots.len() > 0 && roots[0].root != root {
        let rest = roots.drop_first();
        lemma_first_root(rest, root);
        assert forall|k: int| 0 <= k < first_root(roots, root) implies (#[trigger] roots[k]).root
            != root by {
            if k > 0 {
                assert(rest[k - 1] == roots[k]);
            }
        }
        if has_root(roots, root) {
            let i = choose|i: int| 0 <= i < roots.len() && (#[trigger] roots[i]).root == root;
            assert(rest[i - 1] == roots[i]);
        }
        if first_root(rest, root) < rest.len() {
            assert(roots[first_root(rest, root) + 1] == rest[first_root(rest, root)]);
        }
    }
}

impl WordIndexMap {
    /// No root has an index yet.
    pub fn new() -> (map: WordIndexMap)
        ensures
            map@ == Seq::<RootIndexView>::empty(),
    {
        let map = WordIndexMap { roots: Vec::new() };
        assert(map@ =~= Seq::<RootIndexView>::empty());
        map
    }

    fn position(&self, root: &String) -> (r: Option<usize>)
        ensures
            match r {
                Some(i) => i < self.roots.len() && i == first_root(self@, root@) && has_root(
                    self@,
                    root@,
                ),
                None => !has_root(self@, root@),
            },
    {
        proof {
            lemma_first_root(self@, root@);
        }
        let n = self.roots.len();
        let mut i: usize = 0;
        while i < n
            invariant
                n == self.roots.len(),
                i <= n,
                forall|k: int| 0 <= k < i ==> (#[trigger] self@[k]).root != root@,
                0 <= first_root(self@, root@) <= self@.len(),
                first_root(self@, root@) < self@.len() ==> self@[first_root(self@, root@)].root
                    == root@,
                forall|k: int|
                    0 <= k < first_root(self@, root@) ==> (#[trigger] self@[k]).root != root@,
            decreases n - i,
        {
            if self.roots[i].root == *root {
                assert(self@[i as int].root == root@);
                return Some(i);
            }
            i += 1;
        }
        proof {
            if has_root(self@, root@) {
                let k = choose|k: int| 0 <= k < self@.len() && (#[trigger] self@[k]).root == root@;
                assert(self@[k].root != root@);
            }
        }
        None
    }

    /// The index of `root`, or `None` where it was not asked for yet.
    pub fn get(&self, root: &str) -> (r: Option<&WordIndex>)
        ensures
            match r {
                Some(index) => has_root(self@, root@) && index@ == self@[first_root(
                    self@,
                    root@,
                )].index,
                None => !has_root(self@, root@),
            },
    {
        let key = String::from_str(root);
        match self.position(&key) {
            Some(i) => {
                assert(self@[i as int] == self.roots@[i as int]@);
                Some(&self.roots[i].index)
            },
            None => None,
        }
    }

    /// Gives `root` the index `index`, in place of the one that it had.
    pub fn insert(&mut self, root: String, index: WordIndex)
        ensures
            final(self)@ == if has_root(old(self)@, root@) {
                old(self)@.update(
                    first_root(old(self)@, root@),
                    RootIndexView { root: root@, index: index@ },
                )
            } else {
                old(self)@.push(RootIndexView { root: root@, index: index@ })
            },
    {
        let ghost before = self@;
        match self.position(&root) {
            Some(i) => {
                self.roots[i] = RootIndex { root, index };
                assert(self@ =~= before.update(
                    i as int,
                    RootIndexView { root: root@, index: index@ },
                ));
            },
            None => {
                self.roots.push(RootIndex { root, index });
                assert(self@ =~= before.push(RootIndexView { root: root@, index: index@ }));
            },
        }
    }

    /// Gives `root` its index on first access: where the root has none yet,
    /// the index is built from `files`, the source files under the root. A
    /// root that has an index keeps it. Returns whether the index was built
    /// now.
    pub fn materialize(&mut self, root: &str, files: &Vec<SourceFile>) -> (built: bool)
        ensures
            built == !has_root(old(self)@, root@),
            final(self)@ == if built {
                old(self)@.push(
                    RootIndexView { root: root@, index: files_index(file_views(files@)) },
                )
            } else {
                old(self)@
            },
    {
        let key = String::from_str(root);
        if self.position(&key).is_some() {
            return false;
        }
        let index = WordIndex::build(files);
        self.insert(key, index);
        true
    }

    /// A copy of the map.
    pub fn duplicate(&self) -> (copy: WordIndexMap)
        ensures
            copy@ == self@,
    {
        let n = self.roots.len();
        let mut roots: Vec<RootIndex> = Vec::new();
        let mut i: usize = 0;
        while i < n
            invariant
                n == self.roots.len(),
                i <= n,
                roots.len() == i,
                forall|k: int| 0 <= k < i ==> (#[trigger] roots@[k])@ == self.roots@[k]@,
            decreases n - i,
        {
            let entry = &self.roots[i];
            roots.push(RootIndex { root: entry.root.clone(), index: entry.index.duplicate() });
            i += 1;
        }
        let copy = WordIndexMap { roots };
        assert(copy@ =~= self@);
        copy
    }

    /// Brings the indexes up to date after the file `uri` changed from
    /// `old_text` to `new_text`: in the index of every root that the file lies
    /// under, what the file held is taken out and what it holds now is put
    /// in.
    pub fn update_file(&mut self, uri: &str, old_text: &str, new_text: &str)
        ensures
            final(self)@ == roots_after_edit(old(self)@, uri@, old_text@, new_text@),
    {
        let taken = WordIndex::of_content(old_text, uri);
        let added = WordIndex::of_content(new_text, uri);
        let ghost before = self@;
        let path = file_path(uri);
        let n = self.roots.len();
        let mut i: usize = 0;
        while i < n
            invariant
                n == self.roots.len(),
                i <= n,
                before.len() == n,
                path@ == file_of(uri@),
                taken@ == crate::word_index::content_index(old_text@, uri@),
                added@ == crate::word_index::content_index(new_text@, uri@),
                forall|k: int|
                    0 <= k < i ==> (#[trigger] self@[k]) == roots_after_edit(
                        before,
                        uri@,
                        old_text@,
                        new_text@,
                    )[k],
                forall|k: int| i <= k < n ==> (#[trigger] self@[k]) == before[k],
            decreases n - i,
        {
            let ghost now = self@;
            if starts_with(path.as_str(), self.roots[i].root.as_str()) {
                self.roots[i].index.subtract_index(&taken);
                self.roots[i].index.add_index(&added);
            }
            proof {
                assert(self@[i as int] == self.roots@[i as int]@);
                assert(now[i as int] == before[i as int]);
                assert forall|k: int| 0 <= k < n && k != i implies (#[trigger] self@[k]) == now[k] by {
                    assert(self@[k] == self.roots@[k]@);
                }
            }
            i += 1;
        }
        assert(self@ =~= roots_after_edit(before, uri@, old_text@, new_text@));
    }

    /// Takes the file `uri` out of the index of every root that it lies under.
    pub fn remove_file(&mut self, uri: &str)
        ensures
            final(self)@ == roots_after_delete(old(self)@, uri@),
    {
        let ghost before = self@;
        let path = file_path(uri);
        let n = self.roots.len();
        let mut i: usize = 0;
        while i < n
            invariant
                n == self.roots.len(),
                i <= n,
                before.len() == n,
                path@ == file_of(uri@),
                forall|k: int|
                    0 <= k < i ==> (#[trigger] self@[k]) == roots_after_delete(before, uri@)[k],
                forall|k: int| i <= k < n ==> (#[trigger] self@[k]) == before[k],
            decreases n - i,
        {
            let ghost now = self@;
            if starts_with(path.as_str(), self.roots[i].root.as_str()) {
                self.roots[i].index.remove_file(uri);
            }
            proof {
                assert(self@[i as int] == self.roots@[i as int]@);
                assert(now[i as int] == before[i as int]);
                assert forall|k: int| 0 <= k < n && k != i implies (#[trigger] self@[k]) == now[k] by {
                    assert(self@[k] == self.roots@[k]@);
                }
            }
            i += 1;
        }
        assert(self@ =~= roots_after_delete(before, uri@));
    }

    /// Renames the file `old_uri` to `new_uri` in the index of every root
    /// that the file lay under.
    pub fn rename_file(&mut self, old_uri: &str, new_uri: &str)
        ensures
            final(self)@ == roots_after_rename(old(self)@, old_uri@, new_uri@),
    {
        let ghost before = self@;
        let path = file_path(old_uri);
        let n = self.roots.len();
        let mut i: usize = 0;
        while i < n
            invariant
                n == self.roots.len(),
                i <= n,
                before.len() == n,
                path@ == file_of(old_uri@),
                forall|k: int|
                    0 <= k < i ==> (#[trigger] self@[k]) == roots_after_rename(
                        before,
                        old_uri@,
                        new_uri@,
                    )[k],
                forall|k: int| i <= k < n ==> (#[trigger] self@[k]) == before[k],
            decreases n - i,
        {
            let ghost now = self@;
            if starts_with(path.as_str(), self.roots[i].root.as_str()) {
                self.roots[i].index.rename_file(old_uri, new_uri);
            }
            proof {
                assert(self@[i as int] == self.roots@[i as int]@);
                assert(now[i as int] == before[i as int]);
                assert forall|k: int| 0 <= k < n && k != i implies (#[trigger] self@[k]) == now[k] by {
                    assert(self@[k] == self.roots@[k]@);
                }
            }
            i += 1;
        }
        assert(self@ =~= roots_after_rename(before, old_uri@, new_uri@));
    }
}

} // verus!
