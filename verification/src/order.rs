//! An order on paths, so that a set of paths can be walked in one way only.
//!
//! Texts are ordered by their first differing character, a text before its
//! extensions. Paths are ordered in the same way by their first differing
//! segment.

use vstd::prelude::*;
use crate::path::{InstallPath, path_views};
use crate::text::chars_of;

verus! {

/// The number that orders a character.
pub open spec fn code(c: char) -> int {
    c as u32 as int
}

/// `a` comes before `b`.
pub open spec fn text_before(a: Seq<char>, b: Seq<char>) -> bool
    decreases a.len(),
{
    if b.len() == 0 {
        false
    } else if a.len() == 0 {
        true
    } else if a[0] != b[0] {
        code(a[0]) < code(b[0])
    } else {
        text_before(a.drop_first(), b.drop_first())
    }
}

/// `a` comes before `b`.
pub open spec fn path_before(a: Seq<Seq<char>>, b: Seq<Seq<char>>) -> bool
    decreases a.len(),
{
    if b.len() == 0 {
        false
    } else if a.len() == 0 {
        true
    } else if a[0] != b[0] {
        text_before(a[0], b[0])
    } else {
        path_before(a.drop_first(), b.drop_first())
    }
}

/// Characters with the same number are the same.
pub proof fn lemma_code_injective(c: char, d: char)
    ensures
        code(c) == code(d) ==> c == d,
{
    if code(c) == code(d) {
        assert(c as u32 == d as u32);
        assert(c as u32 as char == c);
        assert(d as u32 as char == d);
    }
}

/// No text comes before itself.
pub proof fn lemma_text_irreflexive(a: Seq<char>)
    ensures
        !text_before(a, a),
    decreases a.len(),
{
    if a.len() > 0 {
        lemma_text_irreflexive(a.drop_first());
    }
}

/// Of two different texts one comes before the other.
pub proof fn lemma_text_total(a: Seq<char>, b: Seq<char>)
    ensures
        a == b || text_before(a, b) || text_before(b, a),
    decreases a.len(),
{
    if a.len() == 0 || b.len() == 0 {
        if a.len() == 0 && b.len() == 0 {
            assert(a =~= b);
        }
    } else if a[0] != b[0] {
        lemma_code_injective(a[0], b[0]);
    } else {
        lemma_text_total(a.drop_first(), b.drop_first());
        if a.drop_first() == b.drop_first() {
            assert(a =~= seq![a[0]] + a.drop_first());
            assert(b =~= seq![b[0]] + b.drop_first());
        }
    }
}

/// What comes before a text that comes before a third comes before the
/// third.
pub proof fn lemma_text_transitive(a: Seq<char>, b: Seq<char>, c: Seq<char>)
    requires
        text_before(a, b),
        text_before(b, c),
    ensures
        text_before(a, c),
    decreases a.len(),
{
    if a.len() > 0 {
        if a[0] == b[0] && b[0] == c[0] {
            lemma_text_transitive(a.drop_first(), b.drop_first(), c.drop_first());
        } else {
            lemma_code_injective(a[0], c[0]);
        }
    }
}

/// No path comes before itself.
pub proof fn lemma_path_irreflexive(a: Seq<Seq<char>>)
    ensures
        !path_before(a, a),
    decreases a.len(),
{
    if a.len() > 0 {
        lemma_path_irreflexive(a.drop_first());
    }
}

/// Of two different paths one comes before the other.
pub proof fn lemma_path_total(a: Seq<Seq<char>>, b: Seq<Seq<char>>)
    ensures
        a == b || path_before(a, b) || path_before(b, a),
    decreases a.len(),
{
    if a.len() == 0 || b.len() == 0 {
        if a.len() == 0 && b.len() == 0 {
            assert(a =~= b);
        }
    } else if a[0] != b[0] {
        lemma_text_total(a[0], b[0]);
    } else {
        lemma_path_total(a.drop_first(), b.drop_first());
        if a.drop_first() == b.drop_first() {
            assert(a =~= seq![a[0]] + a.drop_first());
            assert(b =~= seq![b[0]] + b.drop_first());
        }
    }
}

/// What comes before a path that comes before a third comes before the
/// third.
pub proof fn lemma_path_transitive(a: Seq<Seq<char>>, b: Seq<Seq<char>>, c: Seq<Seq<char>>)
    requires
        path_before(a, b),
        path_before(b, c),
    ensures
        path_before(a, c),
    decreases a.len(),
{
    if a.len() > 0 {
        if a[0] == b[0] && b[0] == c[0] {
            lemma_path_transitive(a.drop_first(), b.drop_first(), c.drop_first());
        } else if a[0] == b[0] {
        } else if b[0] == c[0] {
        } else {
            lemma_text_transitive(a[0], b[0], c[0]);
            lemma_text_irreflexive(a[0]);
        }
    }
}

/// The paths stand in ascending order, each before all that follow.
pub open spec fn ascending(paths: Seq<Seq<Seq<char>>>) -> bool {
    forall|i: int, j: int| 0 <= i < j < paths.len() ==> path_before(paths[i], paths[j])
}

/// A set of paths has one ascending order only.
pub proof fn lemma_ascending_unique(one: Seq<Seq<Seq<char>>>, other: Seq<Seq<Seq<char>>>)
    requires
        ascending(one),
        ascending(other),
        one.to_set() == other.to_set(),
    ensures
        one == other,
    decreases one.len(),
{
    if one.len() == 0 {
        if other.len() > 0 {
            assert(other.to_set().contains(other[0]));
            assert(one.contains(other[0]));
        }
        assert(one =~= other);
    } else {
        if other.len() == 0 {
            assert(one.to_set().contains(one[0]));
            assert(other.contains(one[0]));
        }
        // the first of each is the least of the set
        let a = one[0];
        let b = other[0];
        assert(one.to_set().contains(a));
        assert(other.contains(a));
        let ia = choose|i: int| 0 <= i < other.len() && other[i] == a;
        assert(other.to_set().contains(b));
        assert(one.contains(b));
        let ib = choose|i: int| 0 <= i < one.len() && one[i] == b;
        if a != b {
            assert(path_before(b, a));
            assert(path_before(a, b));
            lemma_path_transitive(a, b, a);
            lemma_path_irreflexive(a);
        }
        let one_rest = one.drop_first();
        let other_rest = other.drop_first();
        assert forall|q: Seq<Seq<char>>| one_rest.to_set().contains(q) <==> other_rest.to_set().contains(
            q,
        ) by {
            if one_rest.contains(q) {
                let i = choose|i: int| 0 <= i < one_rest.len() && one_rest[i] == q;
                assert(one[i + 1] == q);
                assert(path_before(a, q));
                lemma_path_irreflexive(a);
                assert(one.to_set().contains(q));
                assert(other.contains(q));
                let j = choose|j: int| 0 <= j < other.len() && other[j] == q;
                assert(j > 0);
                assert(other_rest[j - 1] == q);
            }
            if other_rest.contains(q) {
                let i = choose|i: int| 0 <= i < other_rest.len() && other_rest[i] == q;
                assert(other[i + 1] == q);
                assert(path_before(b, q));
                lemma_path_irreflexive(b);
                assert(other.to_set().contains(q));
                assert(one.contains(q));
                let j = choose|j: int| 0 <= j < one.len() && one[j] == q;
                assert(j > 0);
                assert(one_rest[j - 1] == q);
            }
        }
        assert(one_rest.to_set() =~= other_rest.to_set());
        assert(ascending(one_rest)) by {
            assert forall|i: int, j: int| 0 <= i < j < one_rest.len() implies path_before(
                one_rest[i],
                one_rest[j],
            ) by {
                assert(path_before(one[i + 1], one[j + 1]));
            }
        }
        assert(ascending(other_rest)) by {
            assert forall|i: int, j: int| 0 <= i < j < other_rest.len() implies path_before(
                other_rest[i],
                other_rest[j],
            ) by {
                assert(path_before(other[i + 1], other[j + 1]));
            }
        }
        lemma_ascending_unique(one_rest, other_rest);
        assert(one =~= seq![a] + one_rest);
        assert(other =~= seq![b] + other_rest);
    }
}

/// Whether the text `a` comes before the text `b`.
pub fn text_precedes(a: &str, b: &str) -> (before: bool)
    ensures
        before == text_before(a@, b@),
{
    let left = chars_of(a);
    let right = chars_of(b);
    let mut i: usize = 0;
    assert(left@.skip(0) == left@);
    assert(right@.skip(0) == right@);
    while i < left.len() && i < right.len()
        invariant
            i <= left.len(),
            i <= right.len(),
            left@ == a@,
            right@ == b@,
            text_before(a@, b@) == text_before(left@.skip(i as int), right@.skip(i as int)),
        decreases left.len() - i,
    {
        let ghost l = left@.skip(i as int);
        let ghost r = right@.skip(i as int);
        assert(l[0] == left@[i as int]);
        assert(r[0] == right@[i as int]);
        assert(l.drop_first() == left@.skip(i + 1));
        assert(r.drop_first() == right@.skip(i + 1));
        if left[i] != right[i] {
            return (left[i] as u32) < (right[i] as u32);
        }
        i += 1;
    }
    i < right.len()
}

/// Whether the path `a` comes before the path `b`.
pub fn path_precedes(a: &InstallPath, b: &InstallPath) -> (before: bool)
    ensures
        before == path_before(a@, b@),
{
    let mut i: usize = 0;
    assert(a@.skip(0) == a@);
    assert(b@.skip(0) == b@);
    while i < a.segments.len() && i < b.segments.len()
        invariant
            i <= a.segments.len(),
            i <= b.segments.len(),
            path_before(a@, b@) == path_before(a@.skip(i as int), b@.skip(i as int)),
        decreases a.segments.len() - i,
    {
        let ghost l = a@.skip(i as int);
        let ghost r = b@.skip(i as int);
        assert(l[0] == a.segments@[i as int]@);
        assert(r[0] == b.segments@[i as int]@);
        assert(l.drop_first() == a@.skip(i + 1));
        assert(r.drop_first() == b@.skip(i + 1));
        if a.segments[i] != b.segments[i] {
            return text_precedes(a.segments[i].as_str(), b.segments[i].as_str());
        }
        i += 1;
    }
    i < b.segments.len()
}


/// The paths of `paths` in ascending order, each once.
pub fn sort_paths(paths: Vec<InstallPath>) -> (sorted: Vec<InstallPath>)
    ensures
        ascending(path_views(sorted@)),
        path_views(sorted@).to_set() == path_views(paths@).to_set(),
{
    let ghost all = path_views(paths@);
    let mut input = paths;
    let mut sorted: Vec<InstallPath> = Vec::new();
    while input.len() > 0
        invariant
            ascending(path_views(sorted@)),
            forall|q: Seq<Seq<char>>|
                (path_views(sorted@).contains(q) || path_views(input@).contains(q))
                    <==> #[trigger] all.contains(q),
        decreases input.len(),
    {
        let ghost waiting = path_views(input@);
        let ghost placed = path_views(sorted@);
        let item = match input.pop() {
            Some(item) => item,
            None => { return sorted; },
        };
        proof {
            let now = path_views(input@);
            assert(now == waiting.drop_last());
            assert(item@ == waiting.last());
            assert forall|q: Seq<Seq<char>>| waiting.contains(q) <==> now.contains(q) || q
                == item@ by {
                if waiting.contains(q) {
                    let i = choose|i: int| 0 <= i < waiting.len() && waiting[i] == q;
                    if i < now.len() {
                        assert(now[i] == q);
                    }
                }
                if now.contains(q) {
                    let i = choose|i: int| 0 <= i < now.len() && now[i] == q;
                    assert(waiting[i] == q);
                }
                if q == item@ {
                    assert(waiting[waiting.len() - 1] == q);
                }
            }
        }
        let mut k: usize = 0;
        while k < sorted.len() && path_precedes(&sorted[k], &item)
            invariant
                k <= sorted.len(),
                placed == path_views(sorted@),
                forall|j: int| 0 <= j < k ==> path_before(placed[j], item@),
            decreases sorted.len() - k,
        {
            assert(placed[k as int] == sorted[k as int]@);
            k += 1;
        }
        let known = k < sorted.len() && sorted[k].same(&item);
        if known {
            assert(placed[k as int] == item@);
            assert(placed.contains(item@));
        } else {
            proof {
                if k < sorted.len() {
                    assert(placed[k as int] == sorted[k as int]@);
                    lemma_path_total(placed[k as int], item@);
                    assert(path_before(item@, placed[k as int]));
                }
            }
            sorted.insert(k, item);
            proof {
                let now = path_views(sorted@);
                assert(now =~= placed.insert(k as int, item@));
                assert forall|i: int, j: int| 0 <= i < j < now.len() implies path_before(
                    now[i],
                    now[j],
                ) by {
                    if j < k {
                        assert(path_before(placed[i], placed[j]));
                    } else if j == k {
                    } else if i < k {
                        assert(path_before(placed[i], placed[j - 1]));
                    } else if i == k {
                        if j - 1 > k {
                            assert(path_before(placed[k as int], placed[j - 1]));
                            lemma_path_transitive(item@, placed[k as int], placed[j - 1]);
                        }
                    } else {
                        assert(path_before(placed[i - 1], placed[j - 1]));
                    }
                }
                assert forall|q: Seq<Seq<char>>| now.contains(q) <==> placed.contains(q) || q
                    == item@ by {
                    if now.contains(q) {
                        let i = choose|i: int| 0 <= i < now.len() && now[i] == q;
                        if i < k {
                            assert(placed[i] == q);
                        } else if i > k {
                            assert(placed[i - 1] == q);
                        }
                    }
                    if placed.contains(q) {
                        let i = choose|i: int| 0 <= i < placed.len() && placed[i] == q;
                        if i < k {
                            assert(now[i] == q);
                        } else {
                            assert(now[i + 1] == q);
                        }
                    }
                    if q == item@ {
                        assert(now[k as int] == q);
                    }
                }
            }
        }
    }
    proof {
        let done = path_views(sorted@);
        assert forall|q: Seq<Seq<char>>| done.to_set().contains(q) <==> all.to_set().contains(
            q,
        ) by {
            assert((done.contains(q) || path_views(input@).contains(q)) <==> all.contains(q));
            if path_views(input@).contains(q) {
                let i = choose|i: int| 0 <= i < path_views(input@).len() && path_views(input@)[i] == q;
            }
        }
        assert(done.to_set() =~= all.to_set());
    }
    sorted
}

} // verus!
