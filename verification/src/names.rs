//! Sets of names, kept in order.
//!
//! A refusal lists what it would have accepted, and the list reads the same whatever order the
//! names were declared in: sorted, each once.

use vstd::prelude::*;

use crate::text;

verus! {

broadcast use vstd::string::group_string_axioms;

/// Whether `a` sorts before `b`: character by character, the shorter first where one starts the
/// other.
pub open spec fn before(a: Seq<char>, b: Seq<char>) -> bool
    decreases a.len(),
{
    if b.len() == 0 {
        false
    } else if a.len() == 0 {
        true
    } else if a[0] != b[0] {
        (a[0] as int) < (b[0] as int)
    } else {
        before(a.drop_first(), b.drop_first())
    }
}

/// The set with one more name in it: put before the first name that sorts after it, and left as it
/// was when the name is already there.
pub open spec fn with(sorted: Seq<Seq<char>>, name: Seq<char>) -> Seq<Seq<char>>
    decreases sorted.len(),
{
    if sorted.len() == 0 {
        seq![name]
    } else if sorted.last() == name {
        sorted
    } else if before(sorted.last(), name) {
        sorted.push(name)
    } else {
        with(sorted.drop_last(), name).push(sorted.last())
    }
}

/// The distinct names of a list, in order.
pub open spec fn sorted(names: Seq<Seq<char>>) -> Seq<Seq<char>>
    decreases names.len(),
{
    if names.len() == 0 {
        Seq::empty()
    } else {
        with(sorted(names.drop_last()), names.last())
    }
}

/// Strictly increasing, and so without repetition.
pub open spec fn increasing(names: Seq<Seq<char>>) -> bool {
    forall|i: int, j: int| 0 <= i < j < names.len() ==> before(#[trigger] names[i], #[trigger] names[j])
}

/// The order is total: of two different names exactly one comes first.
pub proof fn order_is_total(a: Seq<char>, b: Seq<char>)
    ensures
        a == b ==> !before(a, b),
        a != b ==> (before(a, b) <==> !before(b, a)),
    decreases a.len(),
{
    if a.len() > 0 && b.len() > 0 && a[0] == b[0] {
        order_is_total(a.drop_first(), b.drop_first());
        if a.drop_first() == b.drop_first() {
            assert(a =~= seq![a[0]] + a.drop_first());
            assert(b =~= seq![b[0]] + b.drop_first());
        }
    } else if a.len() == 0 && b.len() == 0 {
        assert(a =~= b);
    }
}

/// The order is transitive.
pub proof fn order_is_transitive(a: Seq<char>, b: Seq<char>, c: Seq<char>)
    requires
        before(a, b),
        before(b, c),
    ensures
        before(a, c),
    decreases a.len(),
{
    if a.len() > 0 && a[0] == b[0] && b[0] == c[0] {
        order_is_transitive(a.drop_first(), b.drop_first(), c.drop_first());
    }
}

/// Adding a name keeps the set in order and adds that name and no other.
pub proof fn with_keeps_order(set: Seq<Seq<char>>, name: Seq<char>)
    requires
        increasing(set),
    ensures
        increasing(with(set, name)),
        forall|x: Seq<char>| #[trigger]
            with(set, name).contains(x) <==> (set.contains(x) || x == name),
    decreases set.len(),
{
    let grown = with(set, name);
    if set.len() == 0 {
        assert(grown[0] == name);
    } else if set.last() == name {
        assert(set[set.len() - 1] == name);
    } else if before(set.last(), name) {
        assert forall|i: int, j: int| 0 <= i < j < grown.len() implies before(
            #[trigger] grown[i],
            #[trigger] grown[j],
        ) by {
            if j == set.len() && i < set.len() - 1 {
                order_is_transitive(set[i], set.last(), name);
            }
        }
        assert forall|x: Seq<char>| #[trigger] grown.contains(x) <==> (set.contains(x) || x
            == name) by {
            if set.contains(x) {
                let k = choose|k: int| 0 <= k < set.len() && set[k] == x;
                assert(grown[k] == x);
            }
            if x == name {
                assert(grown[set.len() as int] == x);
            }
        }
    } else {
        let front = set.drop_last();
        let inner = with(front, name);
        with_keeps_order(front, name);
        order_is_total(set.last(), name);
        assert(grown == inner.push(set.last()));
        assert forall|i: int| 0 <= i < inner.len() implies before(#[trigger] inner[i], set.last()) by {
            assert(inner.contains(inner[i]));
            if front.contains(inner[i]) {
                let k = choose|k: int| 0 <= k < front.len() && front[k] == inner[i];
                assert(before(set[k], set[set.len() - 1]));
            }
        }
        assert forall|x: Seq<char>| #[trigger] grown.contains(x) <==> (set.contains(x) || x
            == name) by {
            if grown.contains(x) {
                let k = choose|k: int| 0 <= k < grown.len() && grown[k] == x;
                if k < inner.len() {
                    assert(inner.contains(x));
                    if front.contains(x) {
                        let m = choose|m: int| 0 <= m < front.len() && front[m] == x;
                        assert(set[m] == x);
                    }
                } else {
                    assert(set[set.len() - 1] == x);
                }
            }
            if set.contains(x) || x == name {
                if x == set.last() {
                    assert(grown[inner.len() as int] == x);
                } else {
                    if set.contains(x) {
                        let m = choose|m: int| 0 <= m < set.len() && set[m] == x;
                        assert(front[m] == x);
                    }
                    assert(inner.contains(x));
                    let k = choose|k: int| 0 <= k < inner.len() && inner[k] == x;
                    assert(grown[k] == x);
                }
            }
        }
    }
}

/// The sorted list of a list of names is strictly increasing and holds exactly those names.
pub proof fn sorted_is_the_set_in_order(names: Seq<Seq<char>>)
    ensures
        increasing(sorted(names)),
        forall|x: Seq<char>| #[trigger] sorted(names).contains(x) <==> names.contains(x),
    decreases names.len(),
{
    if names.len() > 0 {
        let front = names.drop_last();
        sorted_is_the_set_in_order(front);
        with_keeps_order(sorted(front), names.last());
        assert forall|x: Seq<char>| #[trigger] sorted(names).contains(x) <==> names.contains(x) by {
            if names.contains(x) {
                let k = choose|k: int| 0 <= k < names.len() && names[k] == x;
                if k < front.len() {
                    assert(front[k] == x);
                }
            }
            if front.contains(x) {
                let k = choose|k: int| 0 <= k < front.len() && front[k] == x;
                assert(names[k] == x);
            }
            if x == names.last() {
                assert(names[names.len() - 1] == x);
            }
        }
    }
}

/// A strictly increasing list is decided by what it holds: two that hold the same names are one
/// list. So the order in which names were declared never shows.
pub proof fn increasing_lists_are_equal(a: Seq<Seq<char>>, b: Seq<Seq<char>>)
    requires
        increasing(a),
        increasing(b),
        forall|x: Seq<char>| a.contains(x) <==> b.contains(x),
    ensures
        a == b,
    decreases a.len(),
{
    if a.len() == 0 {
        if b.len() > 0 {
            assert(b.contains(b[0]));
        }
        assert(a =~= b);
    } else {
        assert(a.contains(a.last()));
        assert(b.contains(a.last()));
        assert(b.contains(b.last()));
        assert(a.contains(b.last()));
        let i = choose|i: int| 0 <= i < b.len() && b[i] == a.last();
        let j = choose|j: int| 0 <= j < a.len() && a[j] == b.last();
        if a.last() != b.last() {
            assert(before(b[i], b[b.len() - 1]));
            assert(before(a[j], a[a.len() - 1]));
            order_is_total(a.last(), b.last());
        }
        let fa = a.drop_last();
        let fb = b.drop_last();
        assert forall|x: Seq<char>| fa.contains(x) <==> fb.contains(x) by {
            last_is_apart(a, x);
            last_is_apart(b, x);
        }
        increasing_lists_are_equal(fa, fb);
        assert(a =~= fa.push(a.last()));
        assert(b =~= fb.push(b.last()));
    }
}

proof fn last_is_apart(a: Seq<Seq<char>>, x: Seq<char>)
    requires
        increasing(a),
        a.len() > 0,
    ensures
        a.drop_last().contains(x) <==> (a.contains(x) && x != a.last()),
{
    if a.drop_last().contains(x) {
        let k = choose|k: int| 0 <= k < a.len() - 1 && a.drop_last()[k] == x;
        assert(a[k] == x);
        assert(before(a[k], a[a.len() - 1]));
        order_is_total(x, a.last());
    }
    if a.contains(x) && x != a.last() {
        let k = choose|k: int| 0 <= k < a.len() && a[k] == x;
        assert(a.drop_last()[k] == x);
    }
}

/// Whether one name sorts before another.
pub fn is_before(a: &str, b: &str) -> (r: bool)
    ensures
        r == before(a@, b@),
{
    let x = text::chars_of(a);
    let y = text::chars_of(b);
    let mut i: usize = 0;
    assert(x@.skip(0) =~= x@);
    assert(y@.skip(0) =~= y@);
    while i < x.len() && i < y.len() && x[i] == y[i]
        invariant
            x@ == a@,
            y@ == b@,
            i <= x@.len(),
            i <= y@.len(),
            before(x@.skip(i as int), y@.skip(i as int)) == before(a@, b@),
        decreases x@.len() - i,
    {
        assert(x@.skip(i as int).drop_first() =~= x@.skip(i + 1));
        assert(y@.skip(i as int).drop_first() =~= y@.skip(i + 1));
        i += 1;
    }
    if i >= y.len() {
        false
    } else if i >= x.len() {
        true
    } else {
        text::code(x[i]) < text::code(y[i])
    }
}

/// Adds a name to an ordered set.
fn insert(set: &mut Vec<String>, name: String)
    ensures
        text::views(final(set)@) == with(text::views(old(set)@), name@),
{
    let mut at: usize = set.len();
    let ghost all = text::views(set@);
    proof {
        assert(all.take(at as int) =~= all);
        assert(all.skip(at as int) =~= Seq::empty());
        assert(with(all, name@) =~= with(all.take(at as int), name@) + all.skip(at as int));
    }
    while at > 0 && !text::same(set[at - 1].as_str(), name.as_str()) && !is_before(
        set[at - 1].as_str(),
        name.as_str(),
    )
        invariant
            at <= set@.len(),
            all == text::views(set@),
            with(all, name@) == with(all.take(at as int), name@) + all.skip(at as int),
        decreases at,
    {
        proof {
            let now = all.take(at as int);
            assert(now.drop_last() =~= all.take(at - 1));
            assert(now.last() == all[at - 1]);
            assert(with(all.take(at - 1), name@).push(now.last()) + all.skip(at as int) =~= with(
                all.take(at - 1),
                name@,
            ) + all.skip(at - 1));
        }
        at -= 1;
    }
    if at > 0 && text::same(set[at - 1].as_str(), name.as_str()) {
        proof {
            assert(all.take(at as int).last() == all[at - 1]);
            assert(all.take(at as int) + all.skip(at as int) =~= all);
        }
        return ;
    }
    proof {
        let now = all.take(at as int);
        if at > 0 {
            assert(now.last() == all[at - 1]);
        } else {
            assert(now =~= Seq::empty());
        }
        assert(with(now, name@) =~= now.push(name@));
    }
    let ghost spot = at as int;
    set.insert(at, name);
    assert(text::views(set@) =~= all.take(spot).push(name@) + all.skip(spot));
}

/// The distinct names of a list, in order.
pub fn sort(list: &[String]) -> (r: Vec<String>)
    ensures
        text::views(r@) == sorted(text::views(list@)),
{
    let mut out: Vec<String> = Vec::new();
    let ghost all = text::views(list@);
    let mut i: usize = 0;
    assert(text::views(out@) =~= Seq::empty());
    while i < list.len()
        invariant
            i <= list@.len(),
            all == text::views(list@),
            text::views(out@) == sorted(all.take(i as int)),
        decreases list@.len() - i,
    {
        insert(&mut out, list[i].clone());
        i += 1;
        assert(all.take(i as int).drop_last() =~= all.take(i - 1));
    }
    assert(all.take(i as int) =~= all);
    out
}

/// No name occurs twice.
pub open spec fn distinct(names: Seq<Seq<char>>) -> bool {
    forall|i: int, j: int| 0 <= i < j < names.len() ==> #[trigger] names[i] != #[trigger] names[j]
}

/// Whether no name occurs twice.
pub fn are_distinct(list: &[String]) -> (r: bool)
    ensures
        r == distinct(text::views(list@)),
{
    let ghost all = text::views(list@);
    let mut i: usize = 0;
    while i < list.len()
        invariant
            i <= list@.len(),
            all == text::views(list@),
            distinct(all.take(i as int)),
        decreases list@.len() - i,
    {
        let mut j: usize = 0;
        while j < i
            invariant
                j <= i < list@.len(),
                all == text::views(list@),
                forall|k: int| 0 <= k < j ==> all[k] != all[i as int],
            decreases i - j,
        {
            if text::same(list[j].as_str(), list[i].as_str()) {
                assert(all[j as int] == all[i as int]);
                return false;
            }
            j += 1;
        }
        proof {
            let next = all.take(i + 1);
            assert forall|a: int, b: int| 0 <= a < b < next.len() implies #[trigger] next[a]
                != #[trigger] next[b] by {
                if b < i {
                    assert(all.take(i as int)[a] != all.take(i as int)[b]);
                } else {
                    assert(all[a] != all[i as int]);
                }
            }
        }
        i += 1;
    }
    assert(all.take(i as int) =~= all);
    true
}

/// How names are ordered: by the first character in which they differ, the smaller first; and where
/// they differ in none, the shorter first.
pub proof fn names_are_ordered_by_their_first_difference(a: Seq<char>, b: Seq<char>)
    ensures
        before(a, b) <==> exists|k: int|
            {
                &&& 0 <= k <= a.len() && k < b.len()
                &&& #[trigger] a.take(k) == b.take(k)
                &&& k == a.len() || (a[k] as int) < (b[k] as int)
            },
    decreases a.len(),
{
    if a.len() > 0 && b.len() > 0 && a[0] == b[0] {
        let x = a.drop_first();
        let y = b.drop_first();
        names_are_ordered_by_their_first_difference(x, y);
        if before(a, b) {
            let k = choose|k: int|
                {
                    &&& 0 <= k <= x.len() && k < y.len()
                    &&& #[trigger] x.take(k) == y.take(k)
                    &&& k == x.len() || (x[k] as int) < (y[k] as int)
                };
            assert(a.take(k + 1) =~= seq![a[0]] + x.take(k));
            assert(b.take(k + 1) =~= seq![b[0]] + y.take(k));
            assert(a.take(k + 1) == b.take(k + 1));
        }
        if exists|k: int|
            {
                &&& 0 <= k <= a.len() && k < b.len()
                &&& #[trigger] a.take(k) == b.take(k)
                &&& k == a.len() || (a[k] as int) < (b[k] as int)
            } {
            let k = choose|k: int|
                {
                    &&& 0 <= k <= a.len() && k < b.len()
                    &&& #[trigger] a.take(k) == b.take(k)
                    &&& k == a.len() || (a[k] as int) < (b[k] as int)
                };
            assert(k > 0);
            assert(x.take(k - 1) =~= a.take(k).drop_first());
            assert(y.take(k - 1) =~= b.take(k).drop_first());
            assert(x.take(k - 1) == y.take(k - 1));
        }
    } else if before(a, b) {
        assert(a.take(0) =~= b.take(0));
    } else {
        if exists|k: int|
            {
                &&& 0 <= k <= a.len() && k < b.len()
                &&& #[trigger] a.take(k) == b.take(k)
                &&& k == a.len() || (a[k] as int) < (b[k] as int)
            } {
            let k = choose|k: int|
                {
                    &&& 0 <= k <= a.len() && k < b.len()
                    &&& #[trigger] a.take(k) == b.take(k)
                    &&& k == a.len() || (a[k] as int) < (b[k] as int)
                };
            if k > 0 {
                assert(a.take(k)[0] == b.take(k)[0]);
            }
        }
    }
}

/// Names are distinct exactly when no two places hold the same one.
pub proof fn distinct_names_stand_once(names: Seq<Seq<char>>)
    ensures
        distinct(names) <==> names.no_duplicates(),
{
    if distinct(names) {
        assert forall|i: int, j: int|
            0 <= i < names.len() && 0 <= j < names.len() && i != j implies names[i] != names[j] by {
            if i < j {
                assert(names[i] != names[j]);
            } else {
                assert(names[j] != names[i]);
            }
        }
    }
}

} // verus!
