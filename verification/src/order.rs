//! The order of relative paths, and listings in that order.
use crate::text::{chars_of, views};
use vstd::prelude::*;
use vstd::seq_lib::*;
use vstd::string::*;

verus! {

/// Whether the path `a` comes before `b`, component by component: by the first
/// character in which they differ, the end of a component before every other, or
/// by length.
pub open spec fn path_before(a: Seq<char>, b: Seq<char>) -> bool
    decreases b.len(),
{
    if b.len() == 0 {
        false
    } else if a.len() == 0 {
        true
    } else if a[0] != b[0] {
        a[0] == '/' || (b[0] != '/' && a[0] < b[0])
    } else {
        path_before(a.skip(1), b.skip(1))
    }
}

/// The order of paths is transitive.
pub proof fn lemma_path_before_trans(a: Seq<char>, b: Seq<char>, c: Seq<char>)
    requires
        path_before(a, b),
        path_before(b, c),
    ensures
        path_before(a, c),
    decreases c.len(),
{
    if a.len() > 0 && a[0] == b[0] && b[0] == c[0] {
        lemma_path_before_trans(a.skip(1), b.skip(1), c.skip(1));
    }
}

/// Of two different paths one comes before the other, and not the other way round.
pub proof fn lemma_path_before_total(a: Seq<char>, b: Seq<char>)
    ensures
        a == b || path_before(a, b) || path_before(b, a),
        !(path_before(a, b) && path_before(b, a)),
        a == b ==> !path_before(a, b),
    decreases b.len(),
{
    if a.len() > 0 && b.len() > 0 && a[0] == b[0] {
        lemma_path_before_total(a.skip(1), b.skip(1));
        if a.skip(1) == b.skip(1) {
            assert(a =~= seq![a[0]] + a.skip(1));
            assert(b =~= seq![b[0]] + b.skip(1));
        }
    } else if a.len() == 0 && b.len() == 0 {
        assert(a =~= b);
    }
}

/// Two paths below one directory are ordered as they are within it.
pub proof fn lemma_path_before_below(dir: Seq<char>, a: Seq<char>, b: Seq<char>)
    ensures
        path_before(dir + a, dir + b) == path_before(a, b),
    decreases dir.len(),
{
    if dir.len() == 0 {
        assert(dir + a =~= a);
        assert(dir + b =~= b);
    } else {
        assert((dir + a).skip(1) =~= dir.skip(1) + a);
        assert((dir + b).skip(1) =~= dir.skip(1) + b);
        lemma_path_before_below(dir.skip(1), a, b);
    }
}

/// Whether the path `a` comes before `b`.
pub fn path_comes_before(a: &str, b: &str) -> (res: bool)
    ensures
        res == path_before(a@, b@),
{
    let x: Vec<char> = chars_of(a);
    let y: Vec<char> = chars_of(b);
    let mut i: usize = 0;
    proof {
        assert(x@.skip(0) =~= x@);
        assert(y@.skip(0) =~= y@);
    }
    while i < x.len() && i < y.len()
        invariant
            i <= x@.len(),
            i <= y@.len(),
            path_before(x@, y@) == path_before(x@.skip(i as int), y@.skip(i as int)),
            x@ == a@,
            y@ == b@,
        decreases x@.len() - i,
    {
        proof {
            assert(x@.skip(i as int)[0] == x@[i as int]);
            assert(y@.skip(i as int)[0] == y@[i as int]);
            assert(x@.skip(i as int).skip(1) =~= x@.skip(i + 1));
            assert(y@.skip(i as int).skip(1) =~= y@.skip(i + 1));
        }
        if x[i] != y[i] {
            return x[i] == '/' || (y[i] != '/' && x[i] < y[i]);
        }
        i += 1;
    }
    i < y.len()
}

/// Whether none of `paths` comes before one that stands ahead of it.
pub open spec fn in_path_order(paths: Seq<Seq<char>>) -> bool {
    forall|i: int, j: int|
        0 <= i < j < paths.len() ==> !path_before(#[trigger] paths[j], #[trigger] paths[i])
}

/// Whether `listed` holds the paths of `tree`, each as often as `tree` does, in order.
pub open spec fn is_listing(listed: Seq<Seq<char>>, tree: Seq<Seq<char>>) -> bool {
    in_path_order(listed) && listed.to_multiset() == tree.to_multiset()
}

/// The paths of two listings in one.
fn merge_listings(a: &[String], b: &[String]) -> (res: Vec<String>)
    requires
        in_path_order(views(a@)),
        in_path_order(views(b@)),
    ensures
        in_path_order(views(res@)),
        views(res@).to_multiset() == views(a@).to_multiset().add(views(b@).to_multiset()),
{
    broadcast use group_to_multiset_ensures;

    let ghost left = views(a@);
    let ghost right = views(b@);
    let mut res: Vec<String> = Vec::new();
    let mut i: usize = 0;
    let mut j: usize = 0;
    proof {
        assert(left.take(0) =~= seq![]);
        assert(right.take(0) =~= seq![]);
        assert(views(res@) =~= seq![]);
        assert(views(res@).to_multiset() =~= left.take(0).to_multiset().add(
            right.take(0).to_multiset(),
        ));
    }
    while i < a.len() || j < b.len()
        invariant
            i <= a@.len(),
            j <= b@.len(),
            left == views(a@),
            right == views(b@),
            in_path_order(left),
            in_path_order(right),
            in_path_order(views(res@)),
            views(res@).to_multiset() == left.take(i as int).to_multiset().add(
                right.take(j as int).to_multiset(),
            ),
            forall|k: int, x: int|
                0 <= k < res@.len() && i <= x < left.len() ==> !path_before(
                    #[trigger] left[x],
                    #[trigger] views(res@)[k],
                ),
            forall|k: int, x: int|
                0 <= k < res@.len() && j <= x < right.len() ==> !path_before(
                    #[trigger] right[x],
                    #[trigger] views(res@)[k],
                ),
        decreases a@.len() - i + b@.len() - j,
    {
        let ghost before = views(res@);
        let from_left: bool = if i >= a.len() {
            false
        } else if j >= b.len() {
            true
        } else {
            !path_comes_before(&b[j], &a[i])
        };
        let ghost next = if from_left {
            left[i as int]
        } else {
            right[j as int]
        };
        proof {
            assert forall|x: int| i <= x < left.len() implies !path_before(
                #[trigger] left[x],
                next,
            ) by {
                lemma_path_before_total(left[x], next);
                lemma_path_before_total(left[i as int], next);
                if from_left {
                } else if path_before(left[x], next) {
                    assert(path_before(right[j as int], left[i as int]));
                    lemma_path_before_trans(left[x], next, left[i as int]);
                    lemma_path_before_total(left[x], left[i as int]);
                }
            }
            assert forall|x: int| j <= x < right.len() implies !path_before(
                #[trigger] right[x],
                next,
            ) by {
                lemma_path_before_total(right[x], next);
                lemma_path_before_total(right[j as int], next);
                if from_left && path_before(right[x], next) {
                    if right[j as int] != next {
                        lemma_path_before_trans(right[x], next, right[j as int]);
                    }
                    lemma_path_before_total(right[x], right[j as int]);
                }
            }
        }
        if from_left {
            res.push(a[i].clone());
            proof {
                assert(left.take(i + 1) =~= left.take(i as int).push(next));
                left.take(i as int).to_multiset_ensures();
            }
            i += 1;
        } else {
            res.push(b[j].clone());
            proof {
                assert(right.take(j + 1) =~= right.take(j as int).push(next));
                right.take(j as int).to_multiset_ensures();
            }
            j += 1;
        }
        proof {
            assert(views(res@) =~= before.push(next));
            before.to_multiset_ensures();
            assert(views(res@).to_multiset() =~= left.take(i as int).to_multiset().add(
                right.take(j as int).to_multiset(),
            ));
        }
    }
    proof {
        assert(left.take(i as int) =~= left);
        assert(right.take(j as int) =~= right);
    }
    res
}

/// The listing of those of `paths` from `from` up to `to`.
fn sort_between(paths: &[String], from: usize, to: usize) -> (res: Vec<String>)
    requires
        from <= to <= paths@.len(),
    ensures
        is_listing(views(res@), views(paths@).subrange(from as int, to as int)),
    decreases to - from,
{
    let ghost all = views(paths@);
    if to - from < 2 {
        let mut res: Vec<String> = Vec::new();
        if from < to {
            res.push(paths[from].clone());
        }
        proof {
            assert(views(res@) =~= all.subrange(from as int, to as int));
        }
        return res;
    }
    let mid: usize = from + (to - from) / 2;
    let left: Vec<String> = sort_between(paths, from, mid);
    let right: Vec<String> = sort_between(paths, mid, to);
    proof {
        let a = all.subrange(from as int, mid as int);
        let b = all.subrange(mid as int, to as int);
        assert(a + b =~= all.subrange(from as int, to as int));
        lemma_multiset_commutative(a, b);
    }
    merge_listings(&left, &right)
}

/// The listing of `paths`.
pub fn sort_paths(paths: &[String]) -> (res: Vec<String>)
    ensures
        is_listing(views(res@), views(paths@)),
{
    proof {
        assert(views(paths@).subrange(0, paths@.len() as int) =~= views(paths@));
    }
    sort_between(paths, 0, paths.len())
}

/// A listing of paths that are all different holds each of them once, and each comes
/// before those that follow it.
pub proof fn lemma_listing(listed: Seq<Seq<char>>, tree: Seq<Seq<char>>)
    requires
        is_listing(listed, tree),
        tree.no_duplicates(),
    ensures
        forall|x: Seq<char>| #[trigger] listed.contains(x) <==> tree.contains(x),
        forall|i: int, j: int|
            0 <= i < j < listed.len() ==> path_before(#[trigger] listed[i], #[trigger] listed[j]),
{
    broadcast use group_to_multiset_ensures;

    assert forall|x: Seq<char>| #[trigger] listed.contains(x) <==> tree.contains(x) by {
        assert(listed.contains(x) <==> listed.to_multiset().count(x) > 0);
        assert(tree.contains(x) <==> tree.to_multiset().count(x) > 0);
    }
    tree.lemma_multiset_has_no_duplicates();
    assert(listed.to_multiset().len() == listed.len());
    listed.lemma_multiset_has_no_duplicates_conv();
    assert forall|i: int, j: int| 0 <= i < j < listed.len() implies path_before(
        #[trigger] listed[i],
        #[trigger] listed[j],
    ) by {
        lemma_path_before_total(listed[i], listed[j]);
    }
}

/// Paths are ordered name by name: a separator stands before every other character,
/// other characters are ordered as they are, and a path stands before those that it
/// begins.
pub proof fn law_paths_are_ordered_name_by_name(
    a: &str,
    b: &str,
    shared: Seq<char>,
    x: char,
    y: char,
    rest: Seq<char>,
    other: Seq<char>,
    res: bool,
)
    requires
        call_ensures(path_comes_before, (a, b), res),
    ensures
        a@ == shared.push(x) + rest && b@ == shared.push(y) + other && x != y ==> res == (x == '/'
            || (y != '/' && x < y)),
        a@ == shared && b@ == shared.push(y) + other ==> res,
        a@ == shared.push(x) + rest && b@ == shared ==> !res,
        a@ == b@ ==> !res,
{
    lemma_path_before_total(a@, b@);
    if a@ == shared.push(x) + rest && b@ == shared.push(y) + other && x != y {
        lemma_path_before_below(shared, seq![x] + rest, seq![y] + other);
        assert(a@ =~= shared + (seq![x] + rest));
        assert(b@ =~= shared + (seq![y] + other));
        assert((seq![x] + rest)[0] == x && (seq![y] + other)[0] == y);
    }
    if a@ == shared && b@ == shared.push(y) + other {
        lemma_path_before_below(shared, seq![], seq![y] + other);
        assert(a@ =~= shared + Seq::<char>::empty());
        assert(b@ =~= shared + (seq![y] + other));
    }
    if a@ == shared.push(x) + rest && b@ == shared {
        lemma_path_before_below(shared, seq![x] + rest, seq![]);
        assert(b@ =~= shared + Seq::<char>::empty());
        assert(a@ =~= shared + (seq![x] + rest));
    }
}

} // verus!
