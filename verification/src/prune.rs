//! Which directories may go once a component's parts are gone.
//!
//! Removing a component leaves behind the directories that held its parts.
//! A [`PruneSet`] collects the directories of the removed paths, and a
//! [`PruneIter`] walks from each of them towards the root of the tree, as
//! long as what it meets is reported empty.

use vstd::prelude::*;
use crate::order::{ascending, lemma_ascending_unique, sort_paths};
use crate::path::{InstallPath, path_views, relative};

verus! {

/// `a` is a directory strictly above `d`, and not the root: a non-empty
/// proper prefix of `d`.
pub open spec fn above(a: Seq<Seq<char>>, d: Seq<Seq<char>>) -> bool {
    1 <= a.len() < d.len() && d.take(a.len() as int) == a
}

/// The directories strictly above `d`, the root left out.
pub open spec fn chain_above(d: Seq<Seq<char>>) -> Set<Seq<Seq<char>>> {
    Set::new(|a: Seq<Seq<char>>| above(a, d))
}

/// The directory that holds `path`, where `path` counts for pruning: it is
/// relative and does not lie directly in the root.
pub open spec fn holder(path: Seq<Seq<char>>) -> Option<Seq<Seq<char>>> {
    if relative(path) && path.len() >= 2 {
        Some(path.drop_last())
    } else {
        None
    }
}

/// No path occurs twice.
pub open spec fn distinct(paths: Seq<Seq<Seq<char>>>) -> bool {
    forall|i: int, j: int| 0 <= i < j < paths.len() ==> paths[i] != paths[j]
}

/// Every path is relative and names something below the root.
pub open spec fn all_inside(paths: Seq<Seq<Seq<char>>>) -> bool {
    forall|i: int| 0 <= i < paths.len() ==> (#[trigger] paths[i]).len() >= 1 && relative(paths[i])
}

/// What holds between the candidates and the ancestors of a prune set.
pub open spec fn coherent(candidates: Seq<Seq<Seq<char>>>, ancestors: Seq<Seq<Seq<char>>>) -> bool {
    &&& distinct(candidates)
    &&& distinct(ancestors)
    &&& all_inside(candidates)
    &&& all_inside(ancestors)
    // no candidate is an ancestor
    &&& forall|c: Seq<Seq<char>>| candidates.contains(c) ==> !ancestors.contains(c)
    // whatever lies above a candidate or an ancestor is an ancestor
    &&& forall|q: Seq<Seq<char>>, a: Seq<Seq<char>>|
        (candidates.contains(q) || ancestors.contains(q)) && #[trigger] above(a, q)
            ==> ancestors.contains(a)
    // every ancestor lies above some candidate
    &&& forall|a: Seq<Seq<char>>| #[trigger]
        ancestors.contains(a) ==> exists|c: Seq<Seq<char>>|
            candidates.contains(c) && #[trigger] above(a, c)
}

/// One step of the upward walk keeps the prefix relation: what is above a
/// directory above `d` is above `d`.
pub proof fn lemma_above_transitive(a: Seq<Seq<char>>, b: Seq<Seq<char>>, d: Seq<Seq<char>>)
    requires
        above(a, b),
        above(b, d),
    ensures
        above(a, d),
{
    assert(d.take(a.len() as int) == d.take(b.len() as int).take(a.len() as int));
}

/// A relative path's prefixes are relative.
pub proof fn lemma_above_inside(a: Seq<Seq<char>>, d: Seq<Seq<char>>)
    requires
        above(a, d),
        relative(d),
    ensures
        relative(a),
        a.len() >= 1,
{
    assert(d.take(a.len() as int)[0] == d[0]);
}

/// Adding a directory `d` that is neither candidate nor ancestor: `d` becomes
/// a candidate, and everything above it becomes an ancestor and stops being
/// a candidate. The result is coherent again.
pub proof fn lemma_insert_coherent(
    c0: Seq<Seq<Seq<char>>>,
    a0: Seq<Seq<Seq<char>>>,
    c1: Seq<Seq<Seq<char>>>,
    a1: Seq<Seq<Seq<char>>>,
    d: Seq<Seq<char>>,
)
    requires
        coherent(c0, a0),
        d.len() >= 1,
        relative(d),
        !c0.contains(d),
        !a0.contains(d),
        distinct(c1),
        distinct(a1),
        forall|q: Seq<Seq<char>>| #[trigger]
            c1.contains(q) <==> q == d || (c0.contains(q) && !above(q, d)),
        forall|q: Seq<Seq<char>>| #[trigger] a1.contains(q) <==> a0.contains(q) || above(q, d),
    ensures
        coherent(c1, a1),
{
    assert(all_inside(c1)) by {
        assert forall|i: int| 0 <= i < c1.len() implies (#[trigger] c1[i]).len() >= 1 && relative(
            c1[i],
        ) by {
            let q = c1[i];
            assert(c1.contains(q));
            if q != d {
                let k = choose|k: int| 0 <= k < c0.len() && c0[k] == q;
                assert(c0[k].len() >= 1 && relative(c0[k]));
            }
        }
    }
    assert(all_inside(a1)) by {
        assert forall|i: int| 0 <= i < a1.len() implies (#[trigger] a1[i]).len() >= 1 && relative(
            a1[i],
        ) by {
            let q = a1[i];
            assert(a1.contains(q));
            if a0.contains(q) {
                let k = choose|k: int| 0 <= k < a0.len() && a0[k] == q;
                assert(a0[k].len() >= 1 && relative(a0[k]));
            } else {
                lemma_above_inside(q, d);
            }
        }
    }
    assert forall|c: Seq<Seq<char>>| c1.contains(c) implies !a1.contains(c) by {
        if c == d {
        } else {
            assert(c0.contains(c));
        }
    }
    assert forall|q: Seq<Seq<char>>, a: Seq<Seq<char>>|
        (c1.contains(q) || a1.contains(q)) && #[trigger] above(a, q) implies a1.contains(a) by {
        if q == d {
        } else if above(q, d) {
            lemma_above_transitive(a, q, d);
        } else {
            assert(c0.contains(q) || a0.contains(q));
            assert(a0.contains(a));
        }
    }
    assert forall|a: Seq<Seq<char>>| #[trigger] a1.contains(a) implies exists|c: Seq<Seq<char>>|
        c1.contains(c) && #[trigger] above(a, c) by {
        if above(a, d) {
            assert(c1.contains(d) && above(a, d));
        } else {
            assert(a0.contains(a));
            let c = choose|c: Seq<Seq<char>>| c0.contains(c) && #[trigger] above(a, c);
            if above(c, d) {
                lemma_above_transitive(a, c, d);
            } else {
                assert(c1.contains(c) && above(a, c));
            }
        }
    }
}

/// The directories that the removal of `path` brings into a prune set: the
/// directory that holds `path` and those above it, the root left out.
pub open spec fn brought_by(path: Seq<Seq<char>>) -> Set<Seq<Seq<char>>> {
    match holder(path) {
        Some(dir) => chain_above(dir).insert(dir),
        None => Set::empty(),
    }
}

/// The directories that the removal of `paths` brings into a prune set.
pub open spec fn reach_of(paths: Seq<Seq<Seq<char>>>) -> Set<Seq<Seq<char>>> {
    Set::new(
        |q: Seq<Seq<char>>| exists|i: int| 0 <= i < paths.len() && #[trigger] brought_by(paths[i]).contains(q),
    )
}

/// The deepest of `reach`: the directories of it that lie above no other.
pub open spec fn deepest(reach: Set<Seq<Seq<char>>>) -> Set<Seq<Seq<char>>> {
    Set::new(
        |q: Seq<Seq<char>>|
            reach.contains(q) && !exists|below: Seq<Seq<char>>|
                reach.contains(below) && #[trigger] above(q, below),
    )
}

/// Where `target` stands in `list`, if it does.
fn position(list: &Vec<InstallPath>, target: &InstallPath) -> (at: Option<usize>)
    ensures
        match at {
            Some(i) => i < list.len() && list[i as int]@ == target@,
            None => !path_views(list@).contains(target@),
        },
{
    let mut i: usize = 0;
    while i < list.len()
        invariant
            i <= list.len(),
            forall|k: int| 0 <= k < i ==> list[k]@ != target@,
        decreases list.len() - i,
    {
        if list[i].same(target) {
            return Some(i);
        }
        i += 1;
    }
    assert forall|k: int| 0 <= k < path_views(list@).len() implies path_views(list@)[k]
        != target@ by {
        assert(path_views(list@)[k] == list[k]@);
    }
    None
}

/// The directories in which something was removed.
///
/// The candidates are the deepest of them: none lies above another. The
/// ancestors are the directories above the candidates, the root left out.
pub struct PruneSet {
    candidates: Vec<InstallPath>,
    ancestors: Vec<InstallPath>,
}

impl PruneSet {
    /// The candidates, in the order in which they will be walked.
    pub closed spec fn candidates(&self) -> Seq<Seq<Seq<char>>> {
        path_views(self.candidates@)
    }

    /// The ancestors.
    pub closed spec fn ancestors(&self) -> Seq<Seq<Seq<char>>> {
        path_views(self.ancestors@)
    }

    /// Every directory the set knows of: candidates and ancestors.
    pub open spec fn reach(&self) -> Set<Seq<Seq<char>>> {
        self.candidates().to_set().union(self.ancestors().to_set())
    }

    /// The set is well formed.
    pub open spec fn wf(&self) -> bool {
        coherent(self.candidates(), self.ancestors())
    }

    /// A set that has seen nothing.
    pub fn new() -> (set: Self)
        ensures
            set.wf(),
            set.candidates() == Seq::<Seq<Seq<char>>>::empty(),
            set.ancestors() == Seq::<Seq<Seq<char>>>::empty(),
    {
        let set = PruneSet { candidates: Vec::new(), ancestors: Vec::new() };
        assert(set.candidates() == Seq::<Seq<Seq<char>>>::empty());
        assert(set.ancestors() == Seq::<Seq<Seq<char>>>::empty());
        set
    }

    /// Whether `dir` is a candidate.
    pub fn is_candidate(&self, dir: &InstallPath) -> (b: bool)
        ensures
            b == self.candidates().contains(dir@),
    {
        let at = position(&self.candidates, dir);
        proof {
            if let Some(i) = at {
                assert(self.candidates()[i as int] == dir@);
            }
        }
        at.is_some()
    }

    /// Whether `dir` is an ancestor.
    pub fn is_ancestor(&self, dir: &InstallPath) -> (b: bool)
        ensures
            b == self.ancestors().contains(dir@),
    {
        let at = position(&self.ancestors, dir);
        proof {
            if let Some(i) = at {
                assert(self.ancestors()[i as int] == dir@);
            }
        }
        at.is_some()
    }

    /// Records that `path` was removed.
    ///
    /// A path that is not relative, or that lies directly in the root, is
    /// ignored, and so is one whose directory is known already. Otherwise the
    /// directory becomes a candidate, and every directory above it becomes an
    /// ancestor and is a candidate no longer.
    pub fn seen(&mut self, path: &InstallPath)
        requires
            old(self).wf(),
        ensures
            final(self).wf(),
            final(self).reach() == old(self).reach().union(brought_by(path@)),
            match holder(path@) {
                Some(dir) if !old(self).reach().contains(dir) => {
                    &&& final(self).candidates().to_set() == old(self).candidates().to_set().insert(
                        dir,
                    ).difference(chain_above(dir))
                    &&& final(self).ancestors().to_set() == old(self).ancestors().to_set().union(
                        chain_above(dir),
                    )
                },
                _ => {
                    &&& final(self).candidates() == old(self).candidates()
                    &&& final(self).ancestors() == old(self).ancestors()
                },
            },
    {
        if !path.is_relative() {
            return;
        }
        let dir = match path.parent() {
            Some(dir) => dir,
            None => { return; },
        };
        if dir.is_empty() {
            return;
        }
        assert(holder(path@) == Some(dir@));
        if self.is_candidate(&dir) || self.is_ancestor(&dir) {
            return;
        }
        let ghost c0 = self.candidates();
        let ghost a0 = self.ancestors();
        let ghost d = dir@;
        assert(relative(d)) by {
            assert(path@.drop_last()[0] == path@[0]);
        }
        self.candidates.push(dir.clone());
        proof {
            let c = self.candidates();
            assert(c == c0.push(d));
            assert(distinct(c));
            assert forall|q: Seq<Seq<char>>| #[trigger] c.contains(q) <==> q == d || c0.contains(
                q,
            ) by {
                if c.contains(q) {
                    let k = choose|k: int| 0 <= k < c.len() && c[k] == q;
                    if k < c0.len() {
                        assert(c0[k] == q);
                    }
                }
                if c0.contains(q) {
                    let k = choose|k: int| 0 <= k < c0.len() && c0[k] == q;
                    assert(c[k] == q);
                }
                if q == d {
                    assert(c[c0.len() as int] == d);
                }
            }
        }
        let mut level: usize = dir.len() - 1;
        let mut current = dir;
        let mut known = false;
        while level > 0 && !known
            invariant
                coherent(c0, a0),
                !c0.contains(d),
                !a0.contains(d),
                level < d.len(),
                current@ == d.take(level + 1),
                distinct(self.candidates()),
                distinct(self.ancestors()),
                forall|q: Seq<Seq<char>>| #[trigger]
                    self.candidates().contains(q) <==> q == d || (c0.contains(q) && !(above(q, d)
                        && q.len() > level)),
                forall|q: Seq<Seq<char>>| #[trigger]
                    self.ancestors().contains(q) <==> a0.contains(q) || (above(q, d) && q.len()
                        > level),
                known ==> a0.contains(d.take(level as int)),
            decreases level + (if known { 0int } else { 1int }),
        {
            let up = match current.parent() {
                Some(up) => up,
                None => { return; },
            };
            assert(up@ == d.take(level as int)) by {
                assert(d.take(level + 1).drop_last() == d.take(level as int));
            }
            assert(above(up@, d));
            let ghost c_before = self.candidates();
            let ghost a_before = self.ancestors();
            if self.is_ancestor(&up) {
                known = true;
            } else {
                match position(&self.candidates, &up) {
                    Some(at) => {
                        self.candidates.remove(at);
                        proof {
                            let c = self.candidates();
                            assert(c == c_before.remove(at as int));
                            assert(c_before[at as int] == up@);
                            assert(distinct(c));
                            assert forall|q: Seq<Seq<char>>| #[trigger]
                                c.contains(q) <==> c_before.contains(q) && q != up@ by {
                                if c.contains(q) {
                                    let k = choose|k: int| 0 <= k < c.len() && c[k] == q;
                                    if k < at {
                                        assert(c_before[k] == q);
                                    } else {
                                        assert(c_before[k + 1] == q);
                                    }
                                }
                                if c_before.contains(q) && q != up@ {
                                    let k = choose|k: int|
                                        0 <= k < c_before.len() && c_before[k] == q;
                                    if k < at {
                                        assert(c[k] == q);
                                    } else {
                                        assert(c[k - 1] == q);
                                    }
                                }
                            }
                        }
                    },
                    None => {
                        assert(self.candidates() == c_before);
                    },
                }
                self.ancestors.push(up.clone());
                proof {
                    let a = self.ancestors();
                    assert(a == a_before.push(up@));
                    assert(distinct(a));
                    assert forall|q: Seq<Seq<char>>| #[trigger]
                        a.contains(q) <==> a_before.contains(q) || q == up@ by {
                        if a.contains(q) {
                            let k = choose|k: int| 0 <= k < a.len() && a[k] == q;
                            if k < a_before.len() {
                                assert(a_before[k] == q);
                            }
                        }
                        if a_before.contains(q) {
                            let k = choose|k: int| 0 <= k < a_before.len() && a_before[k] == q;
                            assert(a[k] == q);
                        }
                        if q == up@ {
                            assert(a[a_before.len() as int] == q);
                        }
                    }
                    assert forall|q: Seq<Seq<char>>| above(q, d) && q.len() > level - 1 implies (
                    above(q, d) && q.len() > level) || q == up@ by {
                        if q.len() == level {
                            assert(q == d.take(level as int));
                        }
                    }
                }
                current = up;
                level = level - 1;
            }
        }
        proof {
            let c1 = self.candidates();
            let a1 = self.ancestors();
            assert forall|q: Seq<Seq<char>>| #[trigger]
                c1.contains(q) <==> q == d || (c0.contains(q) && !above(q, d)) by {
                if c0.contains(q) && above(q, d) && q.len() <= level {
                    // only on an early stop: everything at or above the
                    // known ancestor is an ancestor already
                    let top = d.take(level as int);
                    if q.len() < level {
                        assert(above(q, top)) by {
                            assert(top.take(q.len() as int) == d.take(q.len() as int));
                        }
                    } else {
                        assert(q == top);
                    }
                    assert(a0.contains(q));
                }
            }
            assert forall|q: Seq<Seq<char>>| #[trigger]
                a1.contains(q) <==> a0.contains(q) || above(q, d) by {
                if above(q, d) && q.len() <= level {
                    let top = d.take(level as int);
                    if q.len() < level {
                        assert(above(q, top)) by {
                            assert(top.take(q.len() as int) == d.take(q.len() as int));
                        }
                    } else {
                        assert(q == top);
                    }
                    assert(a0.contains(q));
                }
            }
            lemma_insert_coherent(c0, a0, c1, a1, d);
            assert(c1.to_set() == c0.to_set().insert(d).difference(chain_above(d)));
            assert(a1.to_set() == a0.to_set().union(chain_above(d)));
        }
    }
}


impl PruneSet {
    /// The candidates of a well-formed set are the deepest directories of
    /// its reach, and the ancestors are all the others.
    pub proof fn lemma_shape(&self)
        requires
            self.wf(),
        ensures
            self.candidates().to_set() == deepest(self.reach()),
            self.ancestors().to_set() == self.reach().difference(deepest(self.reach())),
    {
        let c = self.candidates();
        let a = self.ancestors();
        let reach = self.reach();
        assert forall|q: Seq<Seq<char>>| c.to_set().contains(q) <==> deepest(reach).contains(
            q,
        ) by {
            if c.contains(q) {
                assert(reach.contains(q));
                if exists|below: Seq<Seq<char>>| reach.contains(below) && #[trigger] above(q, below) {
                    let below = choose|below: Seq<Seq<char>>|
                        reach.contains(below) && #[trigger] above(q, below);
                    assert(c.contains(below) || a.contains(below));
                    assert(a.contains(q));
                }
            }
            if deepest(reach).contains(q) {
                if a.contains(q) {
                    let over = choose|over: Seq<Seq<char>>| c.contains(over) && #[trigger] above(q, over);
                    assert(reach.contains(over));
                }
                assert(c.contains(q));
            }
        }
        assert(c.to_set() =~= deepest(reach));
        assert forall|q: Seq<Seq<char>>| a.to_set().contains(q) <==> reach.difference(
            deepest(reach),
        ).contains(q) by {
            if a.contains(q) {
                assert(!c.contains(q));
            }
        }
        assert(a.to_set() =~= reach.difference(deepest(reach)));
    }
}

/// Two well-formed prune sets with the same reach have the same candidates
/// and the same ancestors.
pub proof fn lemma_same_reach(one: PruneSet, other: PruneSet)
    requires
        one.wf(),
        other.wf(),
        one.reach() == other.reach(),
    ensures
        one.candidates().to_set() == other.candidates().to_set(),
        one.ancestors().to_set() == other.ancestors().to_set(),
{
    one.lemma_shape();
    other.lemma_shape();
}

/// What a list of removed paths brings into a prune set depends on which
/// paths the list holds, not on their order or number.
pub proof fn lemma_reach_order_free(one: Seq<Seq<Seq<char>>>, other: Seq<Seq<Seq<char>>>)
    requires
        one.to_set() == other.to_set(),
    ensures
        reach_of(one) == reach_of(other),
{
    assert forall|q: Seq<Seq<char>>| reach_of(one).contains(q) <==> reach_of(other).contains(
        q,
    ) by {
        if reach_of(one).contains(q) {
            let i = choose|i: int| 0 <= i < one.len() && #[trigger] brought_by(one[i]).contains(q);
            assert(one.to_set().contains(one[i]));
            assert(other.contains(one[i]));
            let j = choose|j: int| 0 <= j < other.len() && other[j] == one[i];
            assert(brought_by(other[j]).contains(q));
        }
        if reach_of(other).contains(q) {
            let i = choose|i: int|
                0 <= i < other.len() && #[trigger] brought_by(other[i]).contains(q);
            assert(other.to_set().contains(other[i]));
            assert(one.contains(other[i]));
            let j = choose|j: int| 0 <= j < one.len() && one[j] == other[i];
            assert(brought_by(one[j]).contains(q));
        }
    }
    assert(reach_of(one) =~= reach_of(other));
}

/// Seeing one more path adds what that path brings.
pub proof fn lemma_reach_push(paths: Seq<Seq<Seq<char>>>, path: Seq<Seq<char>>)
    ensures
        reach_of(paths.push(path)) == reach_of(paths).union(brought_by(path)),
{
    let more = paths.push(path);
    assert forall|q: Seq<Seq<char>>| reach_of(more).contains(q) <==> reach_of(paths).union(
        brought_by(path),
    ).contains(q) by {
        if reach_of(more).contains(q) {
            let i = choose|i: int| 0 <= i < more.len() && #[trigger] brought_by(more[i]).contains(q);
            if i < paths.len() {
                assert(more[i] == paths[i]);
                assert(brought_by(paths[i]).contains(q));
            }
        }
        if reach_of(paths).contains(q) {
            let i = choose|i: int|
                0 <= i < paths.len() && #[trigger] brought_by(paths[i]).contains(q);
            assert(more[i] == paths[i]);
            assert(brought_by(more[i]).contains(q));
        }
        if brought_by(path).contains(q) {
            assert(more[paths.len() as int] == path);
            assert(brought_by(more[paths.len() as int]).contains(q));
        }
    }
    assert(reach_of(more) =~= reach_of(paths).union(brought_by(path)));
}

/// The first of `pending` that was not yielded before, and what follows it.
pub open spec fn next_chain(pending: Seq<Seq<Seq<char>>>, yielded: Seq<Seq<Seq<char>>>) -> (
    Option<Seq<Seq<char>>>,
    Seq<Seq<Seq<char>>>,
)
    decreases pending.len(),
{
    if pending.len() == 0 {
        (None, pending)
    } else if yielded.contains(pending[0]) {
        next_chain(pending.drop_first(), yielded)
    } else {
        (Some(pending[0]), pending.drop_first())
    }
}

/// What `next_chain` picks is one of `pending`, and was not yielded; what it
/// leaves is a tail of `pending`.
pub proof fn lemma_next_chain(pending: Seq<Seq<Seq<char>>>, yielded: Seq<Seq<Seq<char>>>)
    ensures
        ({
            let (picked, rest) = next_chain(pending, yielded);
            &&& rest.len() <= pending.len()
            &&& rest == pending.skip(pending.len() - rest.len())
            &&& picked is Some ==> pending.contains(picked->0) && !yielded.contains(picked->0)
                && rest.len() < pending.len()
        }),
    decreases pending.len(),
{
    if pending.len() == 0 {
        assert(pending.skip(0) == pending);
    } else if yielded.contains(pending[0]) {
        let tail = pending.drop_first();
        lemma_next_chain(tail, yielded);
        let (picked, rest) = next_chain(tail, yielded);
        assert(tail.skip(tail.len() - rest.len()) == pending.skip(pending.len() - rest.len()));
        if picked is Some {
            let k = choose|k: int| 0 <= k < tail.len() && tail[k] == picked->0;
            assert(pending[k + 1] == picked->0);
        }
    } else {
        assert(pending.drop_first() == pending.skip(1));
        assert(pending[0] == pending[0]);
    }
}

/// A walk, as the contracts see it.
pub struct WalkView {
    /// The directory to look at now; `None` when the walk is over.
    pub current: Option<Seq<Seq<char>>>,
    /// The candidates not yet begun.
    pub pending: Seq<Seq<Seq<char>>>,
    /// The directories yielded so far, oldest first.
    pub yielded: Seq<Seq<Seq<char>>>,
}

/// The walk after the answer for its current directory came in, and the
/// directory that the answer yields.
///
/// A walk that is over stays as it is. Otherwise a directory that is empty
/// is yielded, and any other is not. After a yield the walk goes on with
/// the directory above, unless that is the root or was yielded before; in
/// every other case it turns to the next candidate not yielded before.
pub open spec fn advanced(
    before: WalkView,
    empty: bool,
    after: WalkView,
    out: Option<Seq<Seq<char>>>,
) -> bool {
    match before.current {
        None => after == before && out is None,
        Some(dir) => {
            &&& out == if empty {
                Some(dir)
            } else {
                None
            }
            &&& after.yielded == if empty {
                before.yielded.push(dir)
            } else {
                before.yielded
            }
            &&& (after.current, after.pending) == if empty && dir.len() >= 2
                && !after.yielded.contains(dir.drop_last()) {
                (Some(dir.drop_last()), before.pending)
            } else {
                next_chain(before.pending, after.yielded)
            }
        },
    }
}

/// Walks the candidates of a [`PruneSet`] and the directories above them.
///
/// The walk asks and is answered: [`PruneIter::probe`] names the directory
/// to look at, and [`PruneIter::advance`] takes what was found there. A
/// directory is yielded only when it was reported empty, and none is yielded
/// twice. After an empty directory the walk goes on with the directory above
/// it; after any other it leaves the chain and turns to the next candidate.
/// It never reaches the root.
pub struct PruneIter {
    chains: Vec<InstallPath>,
    next: usize,
    current: Option<InstallPath>,
    yielded: Vec<InstallPath>,
}

impl PruneIter {
    /// The directory to look at now; `None` when the walk is over.
    pub closed spec fn current(&self) -> Option<Seq<Seq<char>>> {
        match self.current {
            Some(dir) => Some(dir@),
            None => None,
        }
    }

    /// The candidates not yet begun.
    pub closed spec fn pending(&self) -> Seq<Seq<Seq<char>>> {
        path_views(self.chains@).skip(self.next as int)
    }

    /// The directories yielded so far, oldest first.
    pub closed spec fn yielded(&self) -> Seq<Seq<Seq<char>>> {
        path_views(self.yielded@)
    }

    /// The walk, as the contracts see it.
    pub open spec fn state(&self) -> WalkView {
        WalkView { current: self.current(), pending: self.pending(), yielded: self.yielded() }
    }

    /// The walk is well formed.
    pub closed spec fn wf(&self) -> bool {
        &&& self.next <= self.chains.len()
        &&& distinct(self.yielded())
        &&& all_inside(self.yielded())
        &&& all_inside(path_views(self.chains@))
        &&& match self.current() {
            Some(dir) => dir.len() >= 1 && relative(dir) && !self.yielded().contains(dir),
            None => true,
        }
    }

    /// What a well-formed walk promises: no directory was yielded twice, all
    /// that were yielded are relative and below the root, and so is the one
    /// to look at now, which was not yielded before.
    pub proof fn lemma_wf(&self)
        requires
            self.wf(),
        ensures
            distinct(self.yielded()),
            all_inside(self.yielded()),
            all_inside(self.pending()),
            match self.current() {
                Some(dir) => dir.len() >= 1 && relative(dir) && !self.yielded().contains(dir),
                None => true,
            },
    {
        let all = path_views(self.chains@);
        assert forall|i: int| 0 <= i < self.pending().len() implies (
        #[trigger] self.pending()[i]).len() >= 1 && relative(self.pending()[i]) by {
            assert(self.pending()[i] == all[i + self.next]);
        }
    }

    /// Moves on to the first pending candidate that was not yielded before.
    fn take_chain(&mut self)
        requires
            old(self).next <= old(self).chains.len(),
            all_inside(path_views(old(self).chains@)),
        ensures
            final(self).next <= final(self).chains.len(),
            final(self).chains == old(self).chains,
            final(self).yielded == old(self).yielded,
            (final(self).current(), final(self).pending()) == next_chain(
                old(self).pending(),
                old(self).yielded(),
            ),
            match final(self).current() {
                Some(dir) => dir.len() >= 1 && relative(dir) && !final(self).yielded().contains(
                    dir,
                ),
                None => true,
            },
    {
        let ghost all = path_views(self.chains@);
        let ghost seen = self.yielded();
        let ghost start = self.pending();
        self.current = None;
        let mut found = false;
        while self.next < self.chains.len() && !found
            invariant
                self.next <= self.chains.len(),
                self.chains == old(self).chains,
                self.yielded == old(self).yielded,
                all == path_views(self.chains@),
                seen == self.yielded(),
                all_inside(all),
                !found ==> self.current is None && next_chain(start, seen) == next_chain(
                    all.skip(self.next as int),
                    seen,
                ),
                found ==> (self.current(), all.skip(self.next as int)) == next_chain(start, seen)
                    && self.current() is Some && !seen.contains(self.current()->0)
                    && self.current()->0.len() >= 1 && relative(self.current()->0),
            decreases self.chains.len() - self.next + (if found { 0int } else { 1int }),
        {
            let ghost rest = all.skip(self.next as int);
            assert(rest[0] == all[self.next as int]);
            assert(rest.drop_first() == all.skip(self.next + 1));
            let fresh = position(&self.yielded, &self.chains[self.next]).is_none();
            proof {
                if !fresh {
                    let at = choose|i: int|
                        0 <= i < self.yielded.len() && self.yielded[i]@ == self.chains[self.next as int]@;
                    assert(seen[at] == rest[0]);
                }
            }
            if fresh {
                self.current = Some(self.chains[self.next].clone());
                found = true;
                assert(all[self.next as int].len() >= 1 && relative(all[self.next as int]));
            }
            self.next = self.next + 1;
        }
        proof {
            if !found {
                assert(all.skip(self.next as int).len() == 0);
            }
        }
    }

    /// The directory to look at now; `None` when the walk is over.
    pub fn probe(&self) -> (dir: Option<InstallPath>)
        ensures
            match dir {
                Some(d) => self.current() == Some(d@),
                None => self.current() is None,
            },
    {
        match &self.current {
            Some(dir) => Some(dir.clone()),
            None => None,
        }
    }

    /// Takes the answer for the directory that [`PruneIter::probe`] named:
    /// whether it is there and empty.
    ///
    /// An empty directory is yielded, and the walk goes on with the one above
    /// it, unless that is the root or was yielded before. In every other case
    /// the walk turns to the next candidate that was not yielded before.
    pub fn advance(&mut self, empty: bool) -> (out: Option<InstallPath>)
        requires
            old(self).wf(),
        ensures
            final(self).wf(),
            advanced(
                old(self).state(),
                empty,
                final(self).state(),
                match out {
                    Some(dir) => Some(dir@),
                    None => None,
                },
            ),
    {
        let dir = match self.current.take() {
            Some(dir) => dir,
            None => { return None; },
        };
        if !empty {
            self.take_chain();
            return None;
        }
        let ghost before = self.yielded();
        self.yielded.push(dir.clone());
        proof {
            let now = self.yielded();
            assert(now == before.push(dir@));
            assert(distinct(now));
            assert(all_inside(now)) by {
                assert forall|i: int| 0 <= i < now.len() implies (#[trigger] now[i]).len() >= 1
                    && relative(now[i]) by {
                    if i < before.len() {
                        assert(now[i] == before[i]);
                    }
                }
            }
        }
        let up = match dir.parent() {
            Some(up) => up,
            None => InstallPath::new(),
        };
        if !up.is_empty() && position(&self.yielded, &up).is_none() {
            assert(relative(up@)) by {
                assert(dir@.drop_last()[0] == dir@[0]);
            }
            self.current = Some(up);
        } else {
            proof {
                if up@.len() > 0 {
                    let at = choose|i: int| 0 <= i < self.yielded.len() && self.yielded[i]@ == up@;
                    assert(self.yielded()[at] == up@);
                }
            }
            self.take_chain();
        }
        Some(dir)
    }

    /// Whether the walk is over.
    pub fn is_done(&self) -> (b: bool)
        ensures
            b == (self.current() is None),
    {
        self.current.is_none()
    }
}

/// The candidates that a walk has before it: the one it looks at and those
/// not yet begun.
pub open spec fn chains_of(walk: WalkView) -> Seq<Seq<Seq<char>>> {
    match walk.current {
        Some(first) => seq![first] + walk.pending,
        None => walk.pending,
    }
}

impl PruneSet {
    /// Starts the walk over the directories of this set: over its
    /// candidates, in ascending order.
    pub fn directories(self) -> (walk: PruneIter)
        requires
            self.wf(),
        ensures
            walk.wf(),
            walk.yielded() == Seq::<Seq<Seq<char>>>::empty(),
            walk.current() is None ==> walk.pending().len() == 0,
            ascending(chains_of(walk.state())),
            chains_of(walk.state()).to_set() == self.candidates().to_set(),
    {
        let ghost given = self.candidates();
        let chains = sort_paths(self.candidates);
        let ghost sorted = path_views(chains@);
        proof {
            assert(all_inside(sorted)) by {
                assert forall|i: int| 0 <= i < sorted.len() implies (#[trigger] sorted[i]).len()
                    >= 1 && relative(sorted[i]) by {
                    assert(sorted.to_set().contains(sorted[i]));
                    assert(given.contains(sorted[i]));
                    let k = choose|k: int| 0 <= k < given.len() && given[k] == sorted[i];
                    assert(given[k].len() >= 1 && relative(given[k]));
                }
            }
        }
        let mut walk = PruneIter { chains, next: 0, current: None, yielded: Vec::new() };
        assert(walk.pending() == sorted);
        assert(walk.yielded() == Seq::<Seq<Seq<char>>>::empty());
        walk.take_chain();
        proof {
            if sorted.len() > 0 {
                assert(!Seq::<Seq<Seq<char>>>::empty().contains(sorted[0]));
                assert(seq![sorted[0]] + sorted.drop_first() =~= sorted);
            }
            assert(chains_of(walk.state()) == sorted);
        }
        walk
    }
}

/// A walk yields nothing but the directory it was looking at, and only on
/// the answer that the directory is empty. What it yields is added to what
/// was yielded before.
pub proof fn lemma_yields_only_empty(
    before: WalkView,
    empty: bool,
    after: WalkView,
    out: Option<Seq<Seq<char>>>,
)
    requires
        advanced(before, empty, after, out),
        out is Some,
    ensures
        empty,
        before.current == out,
        after.yielded == before.yielded.push(out->0),
{
}

/// The answer for the directory that a walk looks at leaves one way to go
/// on.
pub proof fn lemma_advance_determined(
    before: WalkView,
    empty: bool,
    one: WalkView,
    one_out: Option<Seq<Seq<char>>>,
    other: WalkView,
    other_out: Option<Seq<Seq<char>>>,
)
    requires
        advanced(before, empty, one, one_out),
        advanced(before, empty, other, other_out),
    ensures
        one == other,
        one_out == other_out,
{
}

/// Two walks that have the same candidates before them, both in ascending
/// order, and have yielded nothing, are the same walk.
pub proof fn lemma_same_start(one: WalkView, other: WalkView)
    requires
        ascending(chains_of(one)),
        ascending(chains_of(other)),
        chains_of(one).to_set() == chains_of(other).to_set(),
        one.yielded.len() == 0,
        other.yielded.len() == 0,
        one.current is None ==> one.pending.len() == 0,
        other.current is None ==> other.pending.len() == 0,
    ensures
        one == other,
{
    lemma_ascending_unique(chains_of(one), chains_of(other));
    let chains = chains_of(one);
    assert(one.yielded =~= other.yielded);
    if one.current is Some {
        assert(chains[0] == one.current->0);
        assert(chains.len() > 0);
        assert(other.current is Some);
        assert(chains[0] == other.current->0);
        assert(one.pending =~= chains.drop_first());
        assert(other.pending =~= chains.drop_first());
    } else {
        assert(chains.len() == 0);
        assert(other.current is None);
        assert(one.pending =~= other.pending);
    }
}

} // verus!
