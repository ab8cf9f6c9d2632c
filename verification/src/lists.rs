//! What it is to pick from a list: which elements stay, in what order, and how many.

use vstd::prelude::*;

verus! {

/// The places of a list, in order, at which something holds: all of them, and no others.
pub open spec fn places(at: Seq<int>, n: int, wanted: spec_fn(int) -> bool) -> bool {
    &&& forall|i: int, j: int| 0 <= i < j < at.len() ==> #[trigger] at[i] < #[trigger] at[j]
    &&& forall|k: int| 0 <= k < at.len() ==> 0 <= #[trigger] at[k] < n && wanted(at[k])
    &&& forall|p: int| 0 <= p < n && #[trigger] wanted(p) ==> at.contains(p)
}

/// That something holds of the element at a place.
pub open spec fn each<A>(list: Seq<A>, holds: spec_fn(A) -> bool) -> spec_fn(int) -> bool {
    |p: int| holds(list[p])
}

/// The elements at some places of a list.
pub open spec fn taken<A>(list: Seq<A>, at: Seq<int>) -> Seq<A> {
    Seq::new(at.len(), |k: int| list[at[k]])
}

/// What is left of a list when exactly the elements of which something holds stay, in their order.
pub open spec fn kept<A>(left: Seq<A>, list: Seq<A>, stays: spec_fn(A) -> bool) -> bool {
    exists|at: Seq<int>| #[trigger]
        places(at, list.len() as int, each(list, stays)) && left == taken(list, at)
}

/// What the elements of which something holds give, in their order.
pub open spec fn gathered<A, B>(
    given: Seq<B>,
    list: Seq<A>,
    gives: spec_fn(A) -> bool,
    what: spec_fn(A) -> B,
) -> bool {
    exists|at: Seq<int>| #[trigger]
        places(at, list.len() as int, each(list, gives)) && given == Seq::new(
            at.len(),
            |k: int| what(list[at[k]]),
        )
}

/// What the elements of a list give, gone through from its end.
pub open spec fn gather<A, B>(
    list: Seq<A>,
    gives: spec_fn(A) -> bool,
    what: spec_fn(A) -> B,
) -> Seq<B>
    decreases list.len(),
{
    if list.len() == 0 {
        Seq::empty()
    } else if gives(list.last()) {
        gather(list.drop_last(), gives, what).push(what(list.last()))
    } else {
        gather(list.drop_last(), gives, what)
    }
}

/// Going through a list gathers what each element gives, and nothing else.
pub proof fn going_through_gathers<A, B>(
    list: Seq<A>,
    gives: spec_fn(A) -> bool,
    what: spec_fn(A) -> B,
)
    ensures
        gathered(gather(list, gives, what), list, gives, what),
{
    let at = gathering_has_places(list, gives, what);
    assert(places(at, list.len() as int, each(list, gives)));
}

proof fn gathering_has_places<A, B>(
    list: Seq<A>,
    gives: spec_fn(A) -> bool,
    what: spec_fn(A) -> B,
) -> (at: Seq<int>)
    ensures
        places(at, list.len() as int, each(list, gives)),
        gather(list, gives, what) == Seq::new(at.len(), |k: int| what(list[at[k]])),
    decreases list.len(),
{
    if list.len() == 0 {
        let at = Seq::<int>::empty();
        assert(gather(list, gives, what) =~= Seq::new(at.len(), |k: int| what(list[at[k]])));
        at
    } else {
        let front = list.drop_last();
        let n = front.len() as int;
        let before = gathering_has_places(front, gives, what);
        let at = grown(before, n, gives(list[n]));
        places_grow(before, n, each(front, gives), each(list, gives));
        assert(gather(list, gives, what) =~= Seq::new(at.len(), |k: int| what(list[at[k]])));
        at
    }
}

/// What was gathered holds exactly what some element gives.
pub proof fn gathered_is_membership<A, B>(
    given: Seq<B>,
    list: Seq<A>,
    gives: spec_fn(A) -> bool,
    what: spec_fn(A) -> B,
    x: B,
)
    requires
        gathered(given, list, gives, what),
    ensures
        given.contains(x) <==> exists|i: int|
            0 <= i < list.len() && gives(#[trigger] list[i]) && what(list[i]) == x,
{
    let at = choose|at: Seq<int>| #[trigger]
        places(at, list.len() as int, each(list, gives)) && given == Seq::new(
            at.len(),
            |k: int| what(list[at[k]]),
        );
    if given.contains(x) {
        let k = choose|k: int| 0 <= k < given.len() && given[k] == x;
        assert(each(list, gives)(at[k]));
        assert(what(list[at[k]]) == x);
    }
    if exists|i: int| 0 <= i < list.len() && gives(#[trigger] list[i]) && what(list[i]) == x {
        let i = choose|i: int|
            0 <= i < list.len() && gives(#[trigger] list[i]) && what(list[i]) == x;
        assert(each(list, gives)(i));
        assert(at.contains(i));
        let k = choose|k: int| 0 <= k < at.len() && at[k] == i;
        assert(given[k] == x);
    }
}

/// The first place of a list at which something holds.
pub open spec fn first(at: int, n: int, wanted: spec_fn(int) -> bool) -> bool {
    &&& 0 <= at < n
    &&& wanted(at)
    &&& forall|j: int| 0 <= j < at ==> !#[trigger] wanted(j)
}

/// Something holds at no place of a list.
pub open spec fn nowhere(n: int, wanted: spec_fn(int) -> bool) -> bool {
    forall|j: int| 0 <= j < n ==> !#[trigger] wanted(j)
}

/// How many elements of a list something holds of.
pub open spec fn amount(n: int, size: int, wanted: spec_fn(int) -> bool) -> bool {
    exists|at: Seq<int>| #[trigger] places(at, size, wanted) && n == at.len()
}

/// Filtering keeps exactly the elements that the filter holds of, however the filter is put.
pub proof fn a_filter_keeps<A>(
    list: Seq<A>,
    keep: spec_fn(A) -> bool,
    stays: spec_fn(A) -> bool,
)
    requires
        forall|i: int| 0 <= i < list.len() ==> keep(#[trigger] list[i]) == stays(list[i]),
    ensures
        kept(list.filter(keep), list, stays),
{
    let at = a_filter_has_places(list, keep, stays);
    assert(places(at, list.len() as int, each(list, stays)));
}

proof fn a_filter_has_places<A>(
    list: Seq<A>,
    keep: spec_fn(A) -> bool,
    stays: spec_fn(A) -> bool,
) -> (at: Seq<int>)
    requires
        forall|i: int| 0 <= i < list.len() ==> keep(#[trigger] list[i]) == stays(list[i]),
    ensures
        places(at, list.len() as int, each(list, stays)),
        list.filter(keep) == taken(list, at),
    decreases list.len(),
{
    reveal(Seq::filter);
    if list.len() == 0 {
        let at = Seq::<int>::empty();
        assert(list.filter(keep) =~= taken(list, at));
        at
    } else {
        let front = list.drop_last();
        let n = front.len() as int;
        assert forall|i: int| 0 <= i < front.len() implies keep(#[trigger] front[i]) == stays(
            front[i],
        ) by {
            assert(list[i] == front[i]);
        }
        let before = a_filter_has_places(front, keep, stays);
        let at = grown(before, n, stays(list[n]));
        places_grow(
            before,
            n,
            each(front, stays),
            each(list, stays),
        );
        assert(list.filter(keep) =~= taken(list, at));
        at
    }
}

/// The places, with one more at the end where it is wanted.
pub open spec fn grown(at: Seq<int>, n: int, more: bool) -> Seq<int> {
    if more {
        at.push(n)
    } else {
        at
    }
}

/// The places of a list that is one longer are those there were, and the last where it is wanted.
pub proof fn places_grow(
    at: Seq<int>,
    n: int,
    before: spec_fn(int) -> bool,
    wanted: spec_fn(int) -> bool,
)
    requires
        n >= 0,
        places(at, n, before),
        forall|p: int| 0 <= p < n ==> before(p) == #[trigger] wanted(p),
    ensures
        places(grown(at, n, wanted(n)), n + 1, wanted),
{
    let more = grown(at, n, wanted(n));
    assert forall|k: int| 0 <= k < more.len() implies 0 <= #[trigger] more[k] < n + 1 && wanted(
        more[k],
    ) by {
        if k < at.len() {
            assert(more[k] == at[k]);
            assert(before(at[k]));
        }
    }
    assert forall|i: int, j: int| 0 <= i < j < more.len() implies #[trigger] more[i]
        < #[trigger] more[j] by {
        assert(more[i] == at[i]);
        if j < at.len() {
            assert(more[j] == at[j]);
        }
    }
    assert forall|p: int| 0 <= p < n + 1 && #[trigger] wanted(p) implies more.contains(p) by {
        if p < n {
            assert(before(p));
            assert(at.contains(p));
            let k = choose|k: int| 0 <= k < at.len() && at[k] == p;
            assert(more[k] == p);
        } else {
            assert(more[at.len() as int] == n);
        }
    }
}

/// What was kept holds exactly the elements that stay.
pub proof fn kept_is_membership<A>(left: Seq<A>, list: Seq<A>, stays: spec_fn(A) -> bool, x: A)
    requires
        kept(left, list, stays),
    ensures
        left.contains(x) <==> list.contains(x) && stays(x),
{
    let at = choose|at: Seq<int>| #[trigger]
        places(at, list.len() as int, each(list, stays)) && left == taken(list, at);
    let wanted = each(list, stays);
    if left.contains(x) {
        let k = choose|k: int| 0 <= k < left.len() && left[k] == x;
        assert(left[k] == list[at[k]]);
        assert(wanted(at[k]));
    }
    if list.contains(x) && stays(x) {
        let p = choose|p: int| 0 <= p < list.len() && list[p] == x;
        assert(wanted(p));
        assert(at.contains(p));
        let k = choose|k: int| 0 <= k < at.len() && at[k] == p;
        assert(left[k] == x);
    }
}

/// Where an element stands whose name is not held already and is the first of its name.
pub open spec fn fresh<A>(
    list: Seq<A>,
    name: spec_fn(A) -> Seq<char>,
    held: spec_fn(Seq<char>) -> bool,
) -> spec_fn(int) -> bool {
    |j: int|
        !held(name(list[j])) && forall|i: int| 0 <= i < j ==> name(#[trigger] list[i]) != name(list[j])
}

/// The first element of each name that is not held already, in order.
pub open spec fn firsts<A>(
    left: Seq<A>,
    list: Seq<A>,
    name: spec_fn(A) -> Seq<char>,
    held: spec_fn(Seq<char>) -> bool,
) -> bool {
    exists|at: Seq<int>| #[trigger]
        places(at, list.len() as int, fresh(list, name, held)) && left == taken(list, at)
}

/// The first element of each name, gone through from the end of the list.
pub open spec fn dedupe<A>(
    list: Seq<A>,
    name: spec_fn(A) -> Seq<char>,
    held: spec_fn(Seq<char>) -> bool,
) -> Seq<A>
    decreases list.len(),
{
    if list.len() == 0 {
        Seq::empty()
    } else if fresh(list, name, held)(list.len() - 1) {
        dedupe(list.drop_last(), name, held).push(list.last())
    } else {
        dedupe(list.drop_last(), name, held)
    }
}

/// Going through a list keeps the first element of each name.
pub proof fn deduping_keeps_the_first<A>(
    list: Seq<A>,
    name: spec_fn(A) -> Seq<char>,
    held: spec_fn(Seq<char>) -> bool,
)
    ensures
        firsts(dedupe(list, name, held), list, name, held),
{
    let at = deduping_has_places(list, name, held);
    assert(places(at, list.len() as int, fresh(list, name, held)));
}

proof fn deduping_has_places<A>(
    list: Seq<A>,
    name: spec_fn(A) -> Seq<char>,
    held: spec_fn(Seq<char>) -> bool,
) -> (at: Seq<int>)
    ensures
        places(at, list.len() as int, fresh(list, name, held)),
        dedupe(list, name, held) == taken(list, at),
    decreases list.len(),
{
    if list.len() == 0 {
        let at = Seq::<int>::empty();
        assert(dedupe(list, name, held) =~= taken(list, at));
        at
    } else {
        let front = list.drop_last();
        let n = front.len() as int;
        let before = deduping_has_places(front, name, held);
        assert forall|p: int| 0 <= p < n implies fresh(front, name, held)(p) == #[trigger] fresh(
            list,
            name,
            held,
        )(p) by {
            assert forall|i: int| 0 <= i < p implies #[trigger] front[i] == list[i] by {}
            if !fresh(list, name, held)(p) && !held(name(list[p])) {
                let i = choose|i: int| 0 <= i < p && name(#[trigger] list[i]) == name(list[p]);
                assert(name(front[i]) == name(front[p]));
            }
        }
        places_grow(before, n, fresh(front, name, held), fresh(list, name, held));
        let at = grown(before, n, fresh(list, name, held)(n));
        assert(dedupe(list, name, held) =~= taken(list, at));
        at
    }
}

/// A name is among the firsts exactly when an element has it and it is not held.
pub proof fn deduping_loses_no_name<A>(
    list: Seq<A>,
    name: spec_fn(A) -> Seq<char>,
    held: spec_fn(Seq<char>) -> bool,
    wanted: Seq<char>,
)
    ensures
        (exists|k: int|
            0 <= k < dedupe(list, name, held).len() && name(#[trigger] dedupe(list, name, held)[k])
                == wanted) <==> !held(wanted) && exists|i: int|
            0 <= i < list.len() && name(#[trigger] list[i]) == wanted,
    decreases list.len(),
{
    if list.len() > 0 {
        let front = list.drop_last();
        let n = front.len() as int;
        let before = dedupe(front, name, held);
        let all = dedupe(list, name, held);
        deduping_loses_no_name(front, name, held, wanted);
        if exists|k: int| 0 <= k < all.len() && name(#[trigger] all[k]) == wanted {
            let k = choose|k: int| 0 <= k < all.len() && name(#[trigger] all[k]) == wanted;
            if k < before.len() {
                assert(name(before[k]) == wanted);
                let i = choose|i: int| 0 <= i < front.len() && name(#[trigger] front[i]) == wanted;
                assert(name(list[i]) == wanted);
            } else {
                assert(name(list[n]) == wanted);
            }
        }
        if !held(wanted) && exists|i: int| 0 <= i < list.len() && name(#[trigger] list[i]) == wanted {
            let i = choose|i: int| 0 <= i < list.len() && name(#[trigger] list[i]) == wanted;
            if i < n {
                assert(name(front[i]) == wanted);
                let k = choose|k: int| 0 <= k < before.len() && name(#[trigger] before[k]) == wanted;
                assert(name(all[k]) == wanted);
            } else if fresh(list, name, held)(n) {
                assert(name(all[before.len() as int]) == wanted);
            } else {
                let j = choose|j: int| 0 <= j < n && name(#[trigger] list[j]) == name(list[n]);
                assert(name(front[j]) == wanted);
                let k = choose|k: int| 0 <= k < before.len() && name(#[trigger] before[k]) == wanted;
                assert(name(all[k]) == wanted);
            }
        }
    }
}

} // verus!
