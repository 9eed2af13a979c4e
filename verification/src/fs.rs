use vstd::prelude::*;
use vstd::string::StrSliceExecFns;
use vstd::string::StringExecFns;

use crate::errors::AgentError;
use crate::paths::{str_eq, str_starts_with};

verus! {

/// One entry of the filesystem model: a regular file with its bytes, a
/// directory, or a symbolic link carrying its target path.
#[derive(Debug)]
pub enum FsNode {
    File(Vec<u8>),
    Dir,
    Symlink(String),
}

/// The mathematical value of an entry.
pub enum FsNodeV {
    File(Seq<u8>),
    Dir,
    Symlink(Seq<char>),
}

impl View for FsNode {
    type V = FsNodeV;

    open spec fn view(&self) -> FsNodeV {
        match self {
            FsNode::File(b) => FsNodeV::File(b@),
            FsNode::Dir => FsNodeV::Dir,
            FsNode::Symlink(t) => FsNodeV::Symlink(t@),
        }
    }
}

impl Clone for FsNode {
    fn clone(&self) -> (r: FsNode)
        ensures
            r@ == self@,
    {
        match self {
            FsNode::File(b) => {
                let mut out: Vec<u8> = Vec::new();
                let n = b.len();
                let mut i: usize = 0;
                while i < n
                    invariant
                        i <= n,
                        n == b@.len(),
                        out@ == b@.take(i as int),
                    decreases n - i,
                {
                    out.push(b[i]);
                    proof {
                        assert(b@.take(i + 1) =~= b@.take(i as int).push(b@[i as int]));
                    }
                    i = i + 1;
                }
                proof {
                    assert(b@.take(n as int) =~= b@);
                }
                FsNode::File(out)
            },
            FsNode::Dir => FsNode::Dir,
            FsNode::Symlink(t) => FsNode::Symlink(t.clone()),
        }
    }
}

/// An observed snapshot of the paths the engine cares about: a flat list
/// of (absolute path, entry) pairs with distinct paths. It stands in for
/// the real tree; parent directories are not tracked. The entry order is
/// the order a directory scan reports.
#[derive(Debug)]
pub struct FsModel {
    pub entries: Vec<(String, FsNode)>,
}

/// The mathematical value of a snapshot.
pub open spec fn fs_view(m: &FsModel) -> Seq<(Seq<char>, FsNodeV)> {
    m.entries@.map_values(|e: (String, FsNode)| (e.0@, e.1@))
}

/// Distinct paths.
pub open spec fn fs_wf(s: Seq<(Seq<char>, FsNodeV)>) -> bool {
    forall|i: int, j: int| 0 <= i < j < s.len() ==> s[i].0 != s[j].0
}

/// The entry at a path, if any.
pub open spec fn lookup_in(s: Seq<(Seq<char>, FsNodeV)>, p: Seq<char>) -> Option<FsNodeV>
    decreases s.len(),
{
    if s.len() == 0 {
        None
    } else if s[0].0 == p {
        Some(s[0].1)
    } else {
        lookup_in(s.drop_first(), p)
    }
}

/// Whether something is present at `p`, following one level of symbolic
/// link: a link whose target path has no entry counts as absent, the way
/// a dangling link does.
pub open spec fn path_exists(s: Seq<(Seq<char>, FsNodeV)>, p: Seq<char>) -> bool {
    match lookup_in(s, p) {
        Some(FsNodeV::Symlink(t)) => lookup_in(s, t) is Some,
        Some(_) => true,
        None => false,
    }
}

/// A valid link: a symbolic link whose target exists.
pub open spec fn valid_link(s: Seq<(Seq<char>, FsNodeV)>, p: Seq<char>) -> bool {
    match lookup_in(s, p) {
        Some(FsNodeV::Symlink(t)) => path_exists(s, t),
        _ => false,
    }
}

/// An entry found at `i` under distinct paths is what lookup returns.
proof fn lemma_lookup_at(s: Seq<(Seq<char>, FsNodeV)>, p: Seq<char>, i: int)
    requires
        fs_wf(s),
        0 <= i < s.len(),
        s[i].0 == p,
    ensures
        lookup_in(s, p) == Some(s[i].1),
    decreases s.len(),
{
    if i > 0 {
        assert(s[0].0 != p);
        assert(fs_wf(s.drop_first())) by {
            assert(forall|x: int, y: int|
                0 <= x < y < s.drop_first().len() ==> s.drop_first()[x] == s[x + 1]
                    && s.drop_first()[y] == s[y + 1]);
        }
        lemma_lookup_at(s.drop_first(), p, i - 1);
    }
}

/// A scan with no hit proves the path absent.
proof fn lemma_lookup_absent(s: Seq<(Seq<char>, FsNodeV)>, p: Seq<char>)
    requires
        forall|j: int| 0 <= j < s.len() ==> s[j].0 != p,
    ensures
        lookup_in(s, p) is None,
    decreases s.len(),
{
    if s.len() > 0 {
        lemma_lookup_absent(s.drop_first(), p);
    }
}

/// Updating the entry at `i` in place changes lookup only at its path.
proof fn lemma_lookup_update(s: Seq<(Seq<char>, FsNodeV)>, i: int, v: FsNodeV, q: Seq<char>)
    requires
        fs_wf(s),
        0 <= i < s.len(),
    ensures
        lookup_in(s.update(i, (s[i].0, v)), q) == (if q == s[i].0 {
            Some(v)
        } else {
            lookup_in(s, q)
        }),
    decreases s.len(),
{
    let t = s.update(i, (s[i].0, v));
    if s.len() > 0 {
        if i == 0 {
            if q != s[0].0 {
                assert(t.drop_first() =~= s.drop_first());
            }
        } else {
            assert(t[0] == s[0]);
            assert(fs_wf(s.drop_first())) by {
                assert(forall|x: int, y: int|
                    0 <= x < y < s.drop_first().len() ==> s.drop_first()[x] == s[x + 1]
                        && s.drop_first()[y] == s[y + 1]);
            }
            assert(t.drop_first() =~= s.drop_first().update(i - 1, (s[i].0, v)));
            assert(s.drop_first()[i - 1] == s[i]);
            lemma_lookup_update(s.drop_first(), i - 1, v, q);
            if q == s[i].0 {
                assert(s[0].0 != q);
            }
        }
    }
}

/// Appending an entry with a fresh path changes lookup only at that path.
proof fn lemma_lookup_push(s: Seq<(Seq<char>, FsNodeV)>, p: Seq<char>, v: FsNodeV, q: Seq<char>)
    ensures
        lookup_in(s.push((p, v)), q) == (if lookup_in(s, q) is Some {
            lookup_in(s, q)
        } else if q == p {
            Some(v)
        } else {
            None
        }),
    decreases s.len(),
{
    if s.len() == 0 {
        assert(s.push((p, v))[0] == (p, v));
        assert(s.push((p, v)).drop_first() =~= Seq::<(Seq<char>, FsNodeV)>::empty());
    } else {
        assert(s.push((p, v))[0] == s[0]);
        assert(s.push((p, v)).drop_first() =~= s.drop_first().push((p, v)));
        lemma_lookup_push(s.drop_first(), p, v, q);
    }
}

/// Removing the entry at `i` erases lookup at its path and nothing else.
proof fn lemma_lookup_remove(s: Seq<(Seq<char>, FsNodeV)>, i: int, q: Seq<char>)
    requires
        fs_wf(s),
        0 <= i < s.len(),
    ensures
        lookup_in(s.remove(i), q) == (if q == s[i].0 {
            None
        } else {
            lookup_in(s, q)
        }),
    decreases s.len(),
{
    let t = s.remove(i);
    if i == 0 {
        assert(t =~= s.drop_first());
        if q == s[0].0 {
            assert(forall|j: int| 0 <= j < t.len() ==> t[j].0 != q);
            lemma_lookup_absent(t, q);
        }
    } else {
        assert(t[0] == s[0]);
        assert(fs_wf(s.drop_first())) by {
            assert(forall|x: int, y: int|
                0 <= x < y < s.drop_first().len() ==> s.drop_first()[x] == s[x + 1]
                    && s.drop_first()[y] == s[y + 1]);
        }
        assert(t.drop_first() =~= s.drop_first().remove(i - 1));
        assert(s.drop_first()[i - 1] == s[i]);
        lemma_lookup_remove(s.drop_first(), i - 1, q);
        if q == s[i].0 {
            assert(s[0].0 != q);
        }
    }
}

impl FsModel {
    /// An empty snapshot.
    pub fn new() -> (r: FsModel)
        ensures
            fs_view(&r) =~= Seq::<(Seq<char>, FsNodeV)>::empty(),
            fs_wf(fs_view(&r)),
    {
        FsModel { entries: Vec::new() }
    }

    /// Distinct paths, as an executable-side invariant.
    pub open spec fn wf(&self) -> bool {
        fs_wf(fs_view(self))
    }

    /// The index of the entry at `p`, if any.
    fn find_idx(&self, p: &str) -> (r: Option<usize>)
        ensures
            match r {
                Some(i) => i < self.entries@.len() && fs_view(self)[i as int].0 == p@,
                None => forall|j: int| 0 <= j < fs_view(self).len() ==> fs_view(self)[j].0 != p@,
            },
    {
        let n = self.entries.len();
        let mut i: usize = 0;
        while i < n
            invariant
                i <= n,
                n == self.entries@.len(),
                forall|j: int| 0 <= j < i ==> fs_view(self)[j].0 != p@,
            decreases n - i,
        {
            if str_eq(self.entries[i].0.as_str(), p) {
                return Some(i);
            }
            i = i + 1;
        }
        None
    }

    /// The entry at `p`, if any.
    pub fn get_node(&self, p: &str) -> (r: Option<&FsNode>)
        requires
            self.wf(),
        ensures
            match r {
                Some(n) => lookup_in(fs_view(self), p@) == Some(n@),
                None => lookup_in(fs_view(self), p@) is None,
            },
    {
        match self.find_idx(p) {
            Some(i) => {
                proof {
                    lemma_lookup_at(fs_view(self), p@, i as int);
                }
                Some(&self.entries[i].1)
            },
            None => {
                proof {
                    lemma_lookup_absent(fs_view(self), p@);
                }
                None
            },
        }
    }

    /// Puts `node` at `p`, replacing whatever entry was there.
    pub fn set_node(&mut self, p: &str, node: FsNode)
        requires
            old(self).wf(),
        ensures
            final (self).wf(),
            forall|q: Seq<char>|
                lookup_in(fs_view(final (self)), q) == (if q == p@ {
                    Some(node@)
                } else {
                    lookup_in(fs_view(old(self)), q)
                }),
    {
        let ghost oldv = fs_view(old(self));
        match self.find_idx(p) {
            Some(i) => {
                let ghost nv = node@;
                self.entries[i] = (String::from_str(p), node);
                proof {
                    assert(fs_view(self) =~= oldv.update(i as int, (oldv[i as int].0, nv)));
                    assert forall|q: Seq<char>|
                        lookup_in(fs_view(self), q) == (if q == p@ {
                            Some(nv)
                        } else {
                            lookup_in(oldv, q)
                        }) by {
                        lemma_lookup_update(oldv, i as int, nv, q);
                    }
                    assert forall|x: int, y: int|
                        0 <= x < y < fs_view(self).len() implies fs_view(self)[x].0 != fs_view(
                        self,
                    )[y].0 by {
                        assert(fs_view(self)[x].0 == oldv[x].0);
                        assert(fs_view(self)[y].0 == oldv[y].0);
                    }
                }
            },
            None => {
                let ghost nv = node@;
                self.entries.push((String::from_str(p), node));
                proof {
                    assert(fs_view(self) =~= oldv.push((p@, nv)));
                    assert forall|q: Seq<char>|
                        lookup_in(fs_view(self), q) == (if q == p@ {
                            Some(nv)
                        } else {
                            lookup_in(oldv, q)
                        }) by {
                        lemma_lookup_push(oldv, p@, nv, q);
                        if q != p@ {
                        } else {
                            lemma_lookup_absent(oldv, q);
                        }
                    }
                    assert forall|x: int, y: int|
                        0 <= x < y < fs_view(self).len() implies fs_view(self)[x].0 != fs_view(
                        self,
                    )[y].0 by {
                        if y < oldv.len() {
                        } else {
                            assert(fs_view(self)[y].0 == p@);
                            assert(fs_view(self)[x].0 == oldv[x].0);
                        }
                    }
                }
            },
        }
    }

    /// Removes the entry at `p` if there is one; no-op otherwise.
    pub fn remove_node(&mut self, p: &str)
        requires
            old(self).wf(),
        ensures
            final (self).wf(),
            forall|q: Seq<char>|
                lookup_in(fs_view(final (self)), q) == (if q == p@ {
                    None
                } else {
                    lookup_in(fs_view(old(self)), q)
                }),
    {
        let ghost oldv = fs_view(old(self));
        match self.find_idx(p) {
            Some(i) => {
                self.entries.remove(i);
                proof {
                    assert(fs_view(self) =~= oldv.remove(i as int));
                    assert forall|q: Seq<char>|
                        lookup_in(fs_view(self), q) == (if q == p@ {
                            None
                        } else {
                            lookup_in(oldv, q)
                        }) by {
                        lemma_lookup_remove(oldv, i as int, q);
                        if q == p@ {
                        } else {
                        }
                    }
                    assert forall|x: int, y: int|
                        0 <= x < y < fs_view(self).len() implies fs_view(self)[x].0 != fs_view(
                        self,
                    )[y].0 by {
                        let sx = if x < i { x } else { x + 1 };
                        let sy = if y < i { y } else { y + 1 };
                        assert(fs_view(self)[x] == oldv[sx]);
                        assert(fs_view(self)[y] == oldv[sy]);
                    }
                }
            },
            None => {
                proof {
                    assert forall|q: Seq<char>|
                        lookup_in(fs_view(self), q) == (if q == p@ {
                            None
                        } else {
                            lookup_in(oldv, q)
                        }) by {
                        if q == p@ {
                            lemma_lookup_absent(oldv, q);
                        }
                    }
                }
            },
        }
    }

    /// Whether something is present at `p`, a dangling link counting as
    /// absent.
    pub fn path_exists(&self, p: &str) -> (r: bool)
        requires
            self.wf(),
        ensures
            r == path_exists(fs_view(self), p@),
    {
        match self.get_node(p) {
            Some(FsNode::Symlink(t)) => {
                let target = t.clone();
                match self.get_node(target.as_str()) {
                    Some(_) => true,
                    None => false,
                }
            },
            Some(_) => true,
            None => false,
        }
    }

    /// True exactly for a symbolic link whose target exists: false for a
    /// path with no entry, for a regular file or directory, and for a
    /// link whose target is missing.
    pub fn is_valid_link(&self, p: &str) -> (r: bool)
        requires
            self.wf(),
        ensures
            r == valid_link(fs_view(self), p@),
    {
        match self.get_node(p) {
            Some(FsNode::Symlink(t)) => {
                let target = t.clone();
                self.path_exists(target.as_str())
            },
            _ => false,
        }
    }
}

} // verus!

verus! {

impl FsModel {
    /// Points `target` at `source`: whatever entry stood at `target` is
    /// replaced by a symbolic link. In the model this always succeeds;
    /// parent directories are not tracked.
    pub fn link(&mut self, source: &str, target: &str)
        requires
            old(self).wf(),
        ensures
            final (self).wf(),
            forall|q: Seq<char>|
                lookup_in(fs_view(final (self)), q) == (if q == target@ {
                    Some(FsNodeV::Symlink(source@))
                } else {
                    lookup_in(fs_view(old(self)), q)
                }),
    {
        self.set_node(target, FsNode::Symlink(String::from_str(source)));
    }

    /// Removes `target` only if it is a symbolic link; succeeds as a
    /// no-op when nothing is there; fails, changing nothing, when the
    /// entry exists but is not a link.
    pub fn unlink(&mut self, target: &str) -> (r: Result<(), AgentError>)
        requires
            old(self).wf(),
        ensures
            final (self).wf(),
            match lookup_in(fs_view(old(self)), target@) {
                Some(FsNodeV::Symlink(_)) => r is Ok && forall|q: Seq<char>|
                    lookup_in(fs_view(final (self)), q) == (if q == target@ {
                        None
                    } else {
                        lookup_in(fs_view(old(self)), q)
                    }),
                Some(_) => (r matches Err(e) && e matches AgentError::NotASymlink(p) && p@
                    == target@) && fs_view(final (self)) == fs_view(old(self)),
                None => r is Ok && fs_view(final (self)) == fs_view(old(self)),
            },
    {
        let kind: u8 = match self.get_node(target) {
            None => 0,
            Some(FsNode::Symlink(_)) => 1,
            Some(_) => 2,
        };
        if kind == 1 {
            self.remove_node(target);
            Ok(())
        } else if kind == 0 {
            Ok(())
        } else {
            Err(AgentError::NotASymlink(String::from_str(target)))
        }
    }

    /// Removes whatever entry is at `target`; a no-op when nothing is.
    pub fn remove_entry(&mut self, target: &str)
        requires
            old(self).wf(),
        ensures
            final (self).wf(),
            forall|q: Seq<char>|
                lookup_in(fs_view(final (self)), q) == (if q == target@ {
                    None
                } else {
                    lookup_in(fs_view(old(self)), q)
                }),
    {
        self.remove_node(target);
    }

    /// Copies the entry at `from` to `to`, replacing what was there; a
    /// no-op when `from` has no entry.
    pub fn copy_entry(&mut self, from: &str, to: &str)
        requires
            old(self).wf(),
        ensures
            final (self).wf(),
            forall|q: Seq<char>|
                lookup_in(fs_view(final (self)), q) == (if q == to@ && lookup_in(
                    fs_view(old(self)),
                    from@,
                ) is Some {
                    lookup_in(fs_view(old(self)), from@)
                } else {
                    lookup_in(fs_view(old(self)), q)
                }),
    {
        let node = match self.get_node(from) {
            Some(n) => n.clone(),
            None => {
                return ;
            },
        };
        self.set_node(to, node);
    }
}

/// A key directly under `dir`: `dir`, a separator, and a nonempty name
/// free of separators.
pub open spec fn is_child_key(k: Seq<char>, dir: Seq<char>) -> bool {
    &&& k.len() > dir.len() + 1
    &&& k.take(dir.len() + 1 as int) == dir + "/"@
    &&& forall|m: int| dir.len() + 1 <= m < k.len() ==> k[m] != '/'
}

/// The name part of a child key.
pub open spec fn child_name(k: Seq<char>, dir: Seq<char>) -> Seq<char> {
    k.skip(dir.len() + 1 as int)
}

/// The entries directly under `dir`, as (name, entry) pairs in snapshot
/// order.
pub open spec fn children_of(s: Seq<(Seq<char>, FsNodeV)>, dir: Seq<char>) -> Seq<
    (Seq<char>, FsNodeV),
>
    decreases s.len(),
{
    if s.len() == 0 {
        Seq::empty()
    } else {
        (if is_child_key(s[0].0, dir) {
            seq![(child_name(s[0].0, dir), s[0].1)]
        } else {
            Seq::empty()
        }) + children_of(s.drop_first(), dir)
    }
}

proof fn lemma_children_concat(a: Seq<(Seq<char>, FsNodeV)>, b: Seq<(Seq<char>, FsNodeV)>, dir: Seq<char>)
    ensures
        children_of(a + b, dir) == children_of(a, dir) + children_of(b, dir),
    decreases a.len(),
{
    if a.len() == 0 {
        assert(a + b =~= b);
        assert(children_of(a, dir) + children_of(b, dir) =~= children_of(b, dir));
    } else {
        assert((a + b).drop_first() =~= a.drop_first() + b);
        assert((a + b)[0] == a[0]);
        lemma_children_concat(a.drop_first(), b, dir);
        assert(children_of(a + b, dir) =~= children_of(a, dir) + children_of(b, dir));
    }
}

/// Whether `s` carries a '/' anywhere in `[from, to)`.
fn has_slash_in_range(s: &str, from: usize, to: usize) -> (r: bool)
    requires
        from <= to <= s@.len(),
    ensures
        r == exists|m: int| from <= m < to && s@[m] == '/',
{
    let mut m = from;
    while m < to
        invariant
            from <= m <= to,
            to <= s@.len(),
            forall|t: int| from <= t < m ==> s@[t] != '/',
        decreases to - m,
    {
        if s.get_char(m) == '/' {
            return true;
        }
        m = m + 1;
    }
    false
}

impl FsModel {
    /// The entries directly under `dir`, named and in snapshot order: a
    /// directory scan.
    pub fn dir_children(&self, dir: &str) -> (r: Vec<(String, FsNode)>)
        ensures
            r@.map_values(|e: (String, FsNode)| (e.0@, e.1@)) == children_of(
                fs_view(self),
                dir@,
            ),
    {
        let prefix = String::from_str(dir).concat("/");
        proof {
            reveal_strlit("/");
        }
        let plen = prefix.as_str().unicode_len();
        let mut out: Vec<(String, FsNode)> = Vec::new();
        let n = self.entries.len();
        let mut i: usize = 0;
        proof {
            assert(fs_view(self).take(0) =~= Seq::<(Seq<char>, FsNodeV)>::empty());
            assert(out@.map_values(|e: (String, FsNode)| (e.0@, e.1@)) =~= children_of(
                fs_view(self).take(0),
                dir@,
            ));
        }
        while i < n
            invariant
                i <= n,
                n == self.entries@.len(),
                plen == dir@.len() + 1,
                plen == prefix@.len(),
                prefix@ == dir@ + "/"@,
                out@.map_values(|e: (String, FsNode)| (e.0@, e.1@)) == children_of(
                    fs_view(self).take(i as int),
                    dir@,
                ),
            decreases n - i,
        {
            let ghost fv = fs_view(self);
            let ghost entry = fv[i as int];
            proof {
                assert(fv.take(i + 1) =~= fv.take(i as int) + seq![entry]);
                lemma_children_concat(fv.take(i as int), seq![entry], dir@);
                assert(seq![entry].drop_first() =~= Seq::<(Seq<char>, FsNodeV)>::empty());
                assert(children_of(Seq::<(Seq<char>, FsNodeV)>::empty(), dir@) =~= Seq::<
                    (Seq<char>, FsNodeV),
                >::empty());
            }
            let key = &self.entries[i].0;
            let klen = key.as_str().unicode_len();
            let is_child = klen > plen && str_starts_with(key.as_str(), prefix.as_str())
                && !has_slash_in_range(key.as_str(), plen, klen);
            if is_child {
                proof {
                    assert(entry.0.take(plen as int) =~= prefix@);
                    assert(is_child_key(entry.0, dir@));
                }
                let name = key.as_str().substring_char(plen, klen).to_owned();
                let node = self.entries[i].1.clone();
                let ghost prev = out@.map_values(|e: (String, FsNode)| (e.0@, e.1@));
                proof {
                    assert(name@ =~= child_name(entry.0, dir@));
                }
                out.push((name, node));
                proof {
                    assert(out@.map_values(|e: (String, FsNode)| (e.0@, e.1@)) =~= prev.push(
                        (child_name(entry.0, dir@), entry.1),
                    ));
                    assert(children_of(seq![entry], dir@) =~= seq![
                        (child_name(entry.0, dir@), entry.1),
                    ]);
                    assert(prev.push((child_name(entry.0, dir@), entry.1)) =~= prev + seq![
                        (child_name(entry.0, dir@), entry.1),
                    ]);
                }
            } else {
                proof {
                    assert(!is_child_key(entry.0, dir@)) by {
                        if is_child_key(entry.0, dir@) {
                            assert(entry.0.take(plen as int) == prefix@);
                            assert(entry.0.len() > plen);
                        }
                    }
                    assert(children_of(seq![entry], dir@) =~= Seq::<(Seq<char>, FsNodeV)>::empty());
                    assert(out@.map_values(|e: (String, FsNode)| (e.0@, e.1@)) + Seq::<
                        (Seq<char>, FsNodeV),
                    >::empty() =~= out@.map_values(|e: (String, FsNode)| (e.0@, e.1@)));
                }
            }
            i = i + 1;
        }
        proof {
            assert(fs_view(self).take(n as int) =~= fs_view(self));
        }
        out
    }
}

} // verus!

verus! {

/// One planned filesystem step. The engine plans these from a snapshot;
/// whoever owns the real tree carries them out in order, and `apply_all`
/// plays them against the model.
#[derive(Debug)]
pub enum FsAction {
    /// Point `target` at `source`, replacing whatever entry was there.
    Link { source: String, target: String },
    /// Remove `target` only if it is a symbolic link; otherwise leave it.
    Unlink { target: String },
    /// Remove whatever entry is at `target`, if any.
    RemoveEntry { target: String },
    /// Copy the entry at `from` to `to`; nothing happens if `from` is absent.
    CopyEntry { from: String, to: String },
    /// Download `content_url` and write the bytes to `dest`. The model
    /// records only that a file appears there.
    Fetch { content_url: String, dest: String },
}

/// The mathematical value of an action.
pub enum FsActionV {
    Link { source: Seq<char>, target: Seq<char> },
    Unlink { target: Seq<char> },
    RemoveEntry { target: Seq<char> },
    CopyEntry { from: Seq<char>, to: Seq<char> },
    Fetch { content_url: Seq<char>, dest: Seq<char> },
}

impl View for FsAction {
    type V = FsActionV;

    open spec fn view(&self) -> FsActionV {
        match self {
            FsAction::Link { source, target } => FsActionV::Link {
                source: source@,
                target: target@,
            },
            FsAction::Unlink { target } => FsActionV::Unlink { target: target@ },
            FsAction::RemoveEntry { target } => FsActionV::RemoveEntry { target: target@ },
            FsAction::CopyEntry { from, to } => FsActionV::CopyEntry { from: from@, to: to@ },
            FsAction::Fetch { content_url, dest } => FsActionV::Fetch {
                content_url: content_url@,
                dest: dest@,
            },
        }
    }
}

/// The mathematical values of a list of actions.
pub open spec fn action_views(acts: Seq<FsAction>) -> Seq<FsActionV> {
    acts.map_values(|a: FsAction| a@)
}

/// What is found at `q` after the actions run, in order, against a
/// snapshot `s`.
pub open spec fn lookup_after(
    s: Seq<(Seq<char>, FsNodeV)>,
    acts: Seq<FsActionV>,
    q: Seq<char>,
) -> Option<FsNodeV>
    decreases acts.len(),
{
    if acts.len() == 0 {
        lookup_in(s, q)
    } else {
        let rest = acts.drop_last();
        match acts.last() {
            FsActionV::Link { source, target } => if q == target {
                Some(FsNodeV::Symlink(source))
            } else {
                lookup_after(s, rest, q)
            },
            FsActionV::Unlink { target } => if q == target {
                match lookup_after(s, rest, target) {
                    Some(FsNodeV::Symlink(t)) => None,
                    other => other,
                }
            } else {
                lookup_after(s, rest, q)
            },
            FsActionV::RemoveEntry { target } => if q == target {
                None
            } else {
                lookup_after(s, rest, q)
            },
            FsActionV::CopyEntry { from, to } => if q == to && lookup_after(
                s,
                rest,
                from,
            ) is Some {
                lookup_after(s, rest, from)
            } else {
                lookup_after(s, rest, q)
            },
            FsActionV::Fetch { content_url, dest } => if q == dest {
                Some(FsNodeV::File(Seq::empty()))
            } else {
                lookup_after(s, rest, q)
            },
        }
    }
}

impl FsModel {
    /// Plays one action against the model.
    pub fn apply(&mut self, a: &FsAction)
        requires
            old(self).wf(),
        ensures
            final (self).wf(),
            forall|q: Seq<char>|
                lookup_in(fs_view(final (self)), q) == lookup_after(
                    fs_view(old(self)),
                    seq![a@],
                    q,
                ),
    {
        proof {
            assert(seq![a@].drop_last() =~= Seq::<FsActionV>::empty());
            assert(seq![a@].last() == a@);
        }
        match a {
            FsAction::Link { source, target } => {
                self.link(source.as_str(), target.as_str());
                proof {
                    assert(a@ == (FsActionV::Link { source: source@, target: target@ }));
                    assert forall|q: Seq<char>|
                        lookup_in(fs_view(self), q) == lookup_after(
                            fs_view(old(self)),
                            seq![a@],
                            q,
                        ) by {
                        assert(seq![a@].last() == a@);
                        assert(seq![a@].drop_last() =~= Seq::<FsActionV>::empty());
                        assert(lookup_after(
                            fs_view(old(self)),
                            Seq::<FsActionV>::empty(),
                            q,
                        ) == lookup_in(fs_view(old(self)), q));
                    }
                }
            },
            FsAction::Unlink { target } => {
                let _ = self.unlink(target.as_str());
                proof {
                    assert(a@ == (FsActionV::Unlink { target: target@ }));
                    assert forall|q: Seq<char>|
                        lookup_in(fs_view(self), q) == lookup_after(
                            fs_view(old(self)),
                            seq![a@],
                            q,
                        ) by {
                        assert(seq![a@].last() == a@);
                        assert(seq![a@].drop_last() =~= Seq::<FsActionV>::empty());
                        assert(lookup_after(
                            fs_view(old(self)),
                            Seq::<FsActionV>::empty(),
                            q,
                        ) == lookup_in(fs_view(old(self)), q));
                        assert(lookup_after(
                            fs_view(old(self)),
                            Seq::<FsActionV>::empty(),
                            target@,
                        ) == lookup_in(fs_view(old(self)), target@));
                        match lookup_in(fs_view(old(self)), target@) {
                            Some(FsNodeV::Symlink(_)) => {},
                            Some(_) => {},
                            None => {},
                        }
                    }
                }
            },
            FsAction::RemoveEntry { target } => {
                self.remove_entry(target.as_str());
                proof {
                    assert(a@ == (FsActionV::RemoveEntry { target: target@ }));
                    assert forall|q: Seq<char>|
                        lookup_in(fs_view(self), q) == lookup_after(
                            fs_view(old(self)),
                            seq![a@],
                            q,
                        ) by {
                        assert(seq![a@].last() == a@);
                        assert(seq![a@].drop_last() =~= Seq::<FsActionV>::empty());
                        assert(lookup_after(
                            fs_view(old(self)),
                            Seq::<FsActionV>::empty(),
                            q,
                        ) == lookup_in(fs_view(old(self)), q));
                    }
                }
            },
            FsAction::CopyEntry { from, to } => {
                self.copy_entry(from.as_str(), to.as_str());
                proof {
                    assert(a@ == (FsActionV::CopyEntry { from: from@, to: to@ }));
                    assert forall|q: Seq<char>|
                        lookup_in(fs_view(self), q) == lookup_after(
                            fs_view(old(self)),
                            seq![a@],
                            q,
                        ) by {
                        assert(seq![a@].last() == a@);
                        assert(seq![a@].drop_last() =~= Seq::<FsActionV>::empty());
                        assert(lookup_after(
                            fs_view(old(self)),
                            Seq::<FsActionV>::empty(),
                            q,
                        ) == lookup_in(fs_view(old(self)), q));
                        assert(lookup_after(
                            fs_view(old(self)),
                            Seq::<FsActionV>::empty(),
                            from@,
                        ) == lookup_in(fs_view(old(self)), from@));
                    }
                }
            },
            FsAction::Fetch { content_url, dest } => {
                self.set_node(dest.as_str(), FsNode::File(Vec::new()));
                proof {
                    assert(a@ == (FsActionV::Fetch { content_url: content_url@, dest: dest@ }));
                    assert forall|q: Seq<char>|
                        lookup_in(fs_view(self), q) == lookup_after(
                            fs_view(old(self)),
                            seq![a@],
                            q,
                        ) by {
                        assert(seq![a@].last() == a@);
                        assert(seq![a@].drop_last() =~= Seq::<FsActionV>::empty());
                        assert(lookup_after(
                            fs_view(old(self)),
                            Seq::<FsActionV>::empty(),
                            q,
                        ) == lookup_in(fs_view(old(self)), q));
                    }
                }
            },
        }
    }

    /// Plays a list of actions against the model, in order.
    pub fn apply_all(&mut self, acts: &Vec<FsAction>)
        requires
            old(self).wf(),
        ensures
            final (self).wf(),
            forall|q: Seq<char>|
                lookup_in(fs_view(final (self)), q) == lookup_after(
                    fs_view(old(self)),
                    action_views(acts@),
                    q,
                ),
    {
        let ghost orig = fs_view(old(self));
        let ghost av = action_views(acts@);
        let n = acts.len();
        let mut i: usize = 0;
        proof {
            assert(av.take(0) =~= Seq::<FsActionV>::empty());
        }
        while i < n
            invariant
                i <= n,
                n == acts@.len(),
                self.wf(),
                av == action_views(acts@),
                forall|q: Seq<char>|
                    lookup_in(fs_view(self), q) == lookup_after(orig, av.take(i as int), q),
            decreases n - i,
        {
            let ghost pre = fs_view(self);
            self.apply(&acts[i]);
            proof {
                assert(av.take(i + 1).drop_last() =~= av.take(i as int));
                assert(av.take(i + 1).last() == av[i as int]);
                assert(av[i as int] == acts@[i as int]@);
                assert forall|q: Seq<char>|
                    lookup_in(fs_view(self), q) == lookup_after(orig, av.take(i + 1), q) by {
                    let a = acts@[i as int]@;
                    assert(lookup_in(fs_view(self), q) == lookup_after(pre, seq![a], q));
                    assert(seq![a].last() == a);
                    assert(seq![a].drop_last() =~= Seq::<FsActionV>::empty());
                    assert(lookup_after(pre, Seq::<FsActionV>::empty(), q) == lookup_in(pre, q));
                    assert(lookup_in(pre, q) == lookup_after(orig, av.take(i as int), q));
                    match a {
                        FsActionV::Unlink { target } => {
                            assert(lookup_after(pre, Seq::<FsActionV>::empty(), target)
                                == lookup_in(pre, target));
                            assert(lookup_in(pre, target) == lookup_after(
                                orig,
                                av.take(i as int),
                                target,
                            ));
                        },
                        FsActionV::CopyEntry { from, to } => {
                            assert(lookup_after(pre, Seq::<FsActionV>::empty(), from)
                                == lookup_in(pre, from));
                            assert(lookup_in(pre, from) == lookup_after(
                                orig,
                                av.take(i as int),
                                from,
                            ));
                        },
                        _ => {},
                    }
                }
            }
            i = i + 1;
        }
        proof {
            assert(av.take(n as int) =~= av);
        }
    }
}

} // verus!

verus! {

/// Whether an action writes to a path: every change an action makes is
/// at the path this names.
pub open spec fn action_writes(a: FsActionV, q: Seq<char>) -> bool {
    match a {
        FsActionV::Link { source, target } => q == target,
        FsActionV::Unlink { target } => q == target,
        FsActionV::RemoveEntry { target } => q == target,
        FsActionV::CopyEntry { from, to } => q == to,
        FsActionV::Fetch { content_url, dest } => q == dest,
    }
}

/// A path no action writes reads as in the snapshot.
pub proof fn lemma_lookup_after_frame(
    s: Seq<(Seq<char>, FsNodeV)>,
    acts: Seq<FsActionV>,
    q: Seq<char>,
)
    requires
        forall|i: int| 0 <= i < acts.len() ==> !action_writes(#[trigger] acts[i], q),
    ensures
        lookup_after(s, acts, q) == lookup_in(s, q),
    decreases acts.len(),
{
    if acts.len() > 0 {
        assert(!action_writes(acts.last(), q));
        lemma_lookup_after_frame(s, acts.drop_last(), q);
    }
}

/// After the last write to a path, a link action decides what is there:
/// the path holds a symbolic link to that action's source.
pub proof fn lemma_lookup_after_last_link(
    s: Seq<(Seq<char>, FsNodeV)>,
    acts: Seq<FsActionV>,
    p: int,
    source: Seq<char>,
    target: Seq<char>,
)
    requires
        0 <= p < acts.len(),
        acts[p] == (FsActionV::Link { source, target }),
        forall|i: int| p < i < acts.len() ==> !action_writes(#[trigger] acts[i], target),
    ensures
        lookup_after(s, acts, target) == Some(FsNodeV::Symlink(source)),
    decreases acts.len(),
{
    if p == acts.len() - 1 {
        assert(acts.last() == (FsActionV::Link { source, target }));
    } else {
        assert(!action_writes(acts.last(), target));
        assert(acts.drop_last()[p] == acts[p]);
        lemma_lookup_after_last_link(s, acts.drop_last(), p, source, target);
    }
}

/// Pointing a target twice leaves it at the second source only: the
/// first link might as well not have happened.
pub proof fn lemma_link_idempotent(
    s: Seq<(Seq<char>, FsNodeV)>,
    s1: Seq<char>,
    s2: Seq<char>,
    t: Seq<char>,
    q: Seq<char>,
)
    ensures
        lookup_after(
            s,
            seq![
                FsActionV::Link { source: s1, target: t },
                FsActionV::Link { source: s2, target: t },
            ],
            q,
        ) == lookup_after(s, seq![FsActionV::Link { source: s2, target: t }], q),
{
    let two = seq![
        FsActionV::Link { source: s1, target: t },
        FsActionV::Link { source: s2, target: t },
    ];
    let one = seq![FsActionV::Link { source: s2, target: t }];
    assert(two.last() == (FsActionV::Link { source: s2, target: t }));
    assert(one.last() == (FsActionV::Link { source: s2, target: t }));
    assert(two.drop_last() =~= seq![FsActionV::Link { source: s1, target: t }]);
    assert(one.drop_last() =~= Seq::<FsActionV>::empty());
    assert(lookup_after(s, Seq::<FsActionV>::empty(), q) == lookup_in(s, q));
    if q != t {
        assert(seq![FsActionV::Link { source: s1, target: t }].last() == (FsActionV::Link {
            source: s1,
            target: t,
        }));
        assert(seq![FsActionV::Link { source: s1, target: t }].drop_last() =~= Seq::<
            FsActionV,
        >::empty());
        assert(lookup_after(s, two, q) == lookup_after(
            s,
            seq![FsActionV::Link { source: s1, target: t }],
            q,
        ));
        assert(lookup_after(s, seq![FsActionV::Link { source: s1, target: t }], q) == lookup_in(
            s,
            q,
        ));
        assert(lookup_after(s, one, q) == lookup_in(s, q));
    }
}

} // verus!
