//! A fingerprint of the orchestration that ran: every workflow and every ruleset, in a fixed order.
//!
//! Deliberately not a cryptographic digest. Nothing here defends against a forged match: it answers
//! "did the graph change between these two runs", and for that it only has to be stable across
//! processes and releases. FNV-1a is fixed because it is written here.

use vstd::prelude::*;
use vstd::string::StrSliceExecFns;

use crate::checkpoint;
use crate::text;

verus! {

broadcast use vstd::string::group_string_axioms;

/// One part of a path.
#[derive(Clone, Debug)]
pub enum Part {
    Root,
    Current,
    Parent,
    /// A name, by its bytes.
    Name(Vec<u8>),
}

impl View for Part {
    type V = Seq<int>;

    /// What a part is ordered by: its kind, then its bytes.
    open spec fn view(&self) -> Seq<int> {
        match self {
            Part::Root => seq![0],
            Part::Current => seq![1],
            Part::Parent => seq![2],
            Part::Name(bytes) => seq![3] + Seq::new(bytes@.len(), |i: int| bytes@[i] as int),
        }
    }
}

/// A file the orchestration is made of.
#[derive(Clone, Debug)]
pub struct Source {
    /// Where it is, part by part.
    pub path: Vec<Part>,
    /// What it is called: its path within the repository, or all of it where it is outside.
    pub name: Vec<u8>,
    /// What it holds; `None` where it is not there.
    pub contents: Option<Vec<u8>>,
}

/// A source, by its views.
pub struct SourceView {
    pub path: Seq<Seq<int>>,
    pub name: Seq<u8>,
    pub contents: Option<Seq<u8>>,
}

impl View for Source {
    type V = SourceView;

    open spec fn view(&self) -> SourceView {
        SourceView {
            path: text::views(self.path@),
            name: self.name@,
            contents: text::opt(self.contents),
        }
    }
}

/// Whether one part sorts before another.
pub open spec fn part_before(a: Seq<int>, b: Seq<int>) -> bool
    decreases a.len(),
{
    if b.len() == 0 {
        false
    } else if a.len() == 0 {
        true
    } else if a[0] != b[0] {
        a[0] < b[0]
    } else {
        part_before(a.drop_first(), b.drop_first())
    }
}

/// Whether one path sorts before another: part by part, the shorter first where one leads to the
/// other.
pub open spec fn path_before(a: Seq<Seq<int>>, b: Seq<Seq<int>>) -> bool
    decreases a.len(),
{
    if b.len() == 0 {
        false
    } else if a.len() == 0 {
        true
    } else if a[0] != b[0] {
        part_before(a[0], b[0])
    } else {
        path_before(a.drop_first(), b.drop_first())
    }
}

proof fn parts_are_ordered(a: Seq<int>, b: Seq<int>)
    ensures
        a == b ==> !part_before(a, b),
        a != b ==> (part_before(a, b) <==> !part_before(b, a)),
    decreases a.len(),
{
    if a.len() > 0 && b.len() > 0 && a[0] == b[0] {
        parts_are_ordered(a.drop_first(), b.drop_first());
        if a.drop_first() == b.drop_first() {
            assert(a =~= seq![a[0]] + a.drop_first());
            assert(b =~= seq![b[0]] + b.drop_first());
        }
    } else if a.len() == 0 && b.len() == 0 {
        assert(a =~= b);
    }
}

proof fn parts_chain(a: Seq<int>, b: Seq<int>, c: Seq<int>)
    requires
        part_before(a, b),
        part_before(b, c),
    ensures
        part_before(a, c),
    decreases a.len(),
{
    if a.len() > 0 && a[0] == b[0] && b[0] == c[0] {
        parts_chain(a.drop_first(), b.drop_first(), c.drop_first());
    }
}

/// The order of paths is total: of two different paths exactly one comes first.
pub proof fn paths_are_ordered(a: Seq<Seq<int>>, b: Seq<Seq<int>>)
    ensures
        a == b ==> !path_before(a, b),
        a != b ==> (path_before(a, b) <==> !path_before(b, a)),
    decreases a.len(),
{
    if a.len() > 0 && b.len() > 0 {
        parts_are_ordered(a[0], b[0]);
        if a[0] == b[0] {
            paths_are_ordered(a.drop_first(), b.drop_first());
            if a.drop_first() == b.drop_first() {
                assert(a =~= seq![a[0]] + a.drop_first());
                assert(b =~= seq![b[0]] + b.drop_first());
            }
        }
    } else if a.len() == 0 && b.len() == 0 {
        assert(a =~= b);
    }
}

/// The order of paths is transitive.
pub proof fn paths_chain(a: Seq<Seq<int>>, b: Seq<Seq<int>>, c: Seq<Seq<int>>)
    requires
        path_before(a, b),
        path_before(b, c),
    ensures
        path_before(a, c),
    decreases a.len(),
{
    if a.len() > 0 {
        parts_are_ordered(a[0], b[0]);
        parts_are_ordered(b[0], c[0]);
        parts_are_ordered(a[0], c[0]);
        if a[0] == b[0] && b[0] == c[0] {
            paths_chain(a.drop_first(), b.drop_first(), c.drop_first());
        } else if a[0] != b[0] && b[0] != c[0] {
            parts_chain(a[0], b[0], c[0]);
        }
    }
}

/// The sources with one more among them: put before the first that sorts after it, and left as they
/// were where its path is already there.
pub open spec fn with(sources: Seq<SourceView>, source: SourceView) -> Seq<SourceView>
    decreases sources.len(),
{
    if sources.len() == 0 {
        seq![source]
    } else if sources.last().path == source.path {
        sources
    } else if path_before(sources.last().path, source.path) {
        sources.push(source)
    } else {
        with(sources.drop_last(), source).push(sources.last())
    }
}

/// The sources in order of their paths, each path once.
pub open spec fn arranged(sources: Seq<SourceView>) -> Seq<SourceView>
    decreases sources.len(),
{
    if sources.len() == 0 {
        Seq::empty()
    } else {
        with(arranged(sources.drop_last()), sources.last())
    }
}

fn part_number(part: &Part) -> (r: u8)
    ensures
        r as int == part@[0],
{
    match part {
        Part::Root => 0,
        Part::Current => 1,
        Part::Parent => 2,
        Part::Name(_) => 3,
    }
}

/// How one thing stands to another in an order.
#[derive(Clone, Copy, Debug, PartialEq, Eq, Structural)]
enum Place {
    Before,
    Same,
    After,
}

fn place_of_bytes(a: &Vec<u8>, b: &Vec<u8>) -> (r: Place)
    ensures
        ({
            let x = Seq::new(a@.len(), |i: int| a@[i] as int);
            let y = Seq::new(b@.len(), |i: int| b@[i] as int);
            &&& r == Place::Same <==> x == y
            &&& r == Place::Before <==> part_before(x, y)
        }),
{
    let ghost x = Seq::new(a@.len(), |i: int| a@[i] as int);
    let ghost y = Seq::new(b@.len(), |i: int| b@[i] as int);
    let mut i: usize = 0;
    proof {
        assert(x.skip(0) =~= x);
        assert(y.skip(0) =~= y);
        parts_are_ordered(x, y);
    }
    while i < a.len() && i < b.len() && a[i] == b[i]
        invariant
            x == Seq::new(a@.len(), |i: int| a@[i] as int),
            y == Seq::new(b@.len(), |i: int| b@[i] as int),
            i <= a@.len(),
            i <= b@.len(),
            forall|j: int| 0 <= j < i ==> x[j] == y[j],
            part_before(x.skip(i as int), y.skip(i as int)) == part_before(x, y),
        decreases a@.len() - i,
    {
        assert(x.skip(i as int).drop_first() =~= x.skip(i + 1));
        assert(y.skip(i as int).drop_first() =~= y.skip(i + 1));
        i += 1;
    }
    if i >= b.len() {
        if i >= a.len() {
            assert(x =~= y);
            Place::Same
        } else {
            assert(x.len() != y.len());
            Place::After
        }
    } else if i >= a.len() {
        assert(x.len() != y.len());
        Place::Before
    } else {
        assert(x[i as int] != y[i as int]);
        if a[i] < b[i] {
            Place::Before
        } else {
            Place::After
        }
    }
}

fn place_of_part(a: &Part, b: &Part) -> (r: Place)
    ensures
        r == Place::Same <==> a@ == b@,
        r == Place::Before <==> part_before(a@, b@),
{
    let p: u8 = part_number(a);
    let q: u8 = part_number(b);
    proof {
        parts_are_ordered(a@, b@);
    }
    if p < q {
        return Place::Before;
    }
    if q < p {
        return Place::After;
    }
    match (a, b) {
        (Part::Name(x), Part::Name(y)) => {
            let r = place_of_bytes(x, y);
            proof {
                let u = Seq::new(x@.len(), |i: int| x@[i] as int);
                let v = Seq::new(y@.len(), |i: int| y@[i] as int);
                assert(a@.drop_first() =~= u);
                assert(b@.drop_first() =~= v);
            }
            r
        },
        _ => {
            assert(a@ =~= b@);
            Place::Same
        },
    }
}

fn place_of_path(a: &Vec<Part>, b: &Vec<Part>) -> (r: Place)
    ensures
        r == Place::Same <==> text::views(a@) == text::views(b@),
        r == Place::Before <==> path_before(text::views(a@), text::views(b@)),
{
    let ghost x = text::views(a@);
    let ghost y = text::views(b@);
    let mut i: usize = 0;
    proof {
        assert(x.skip(0) =~= x);
        assert(y.skip(0) =~= y);
        paths_are_ordered(x, y);
    }
    while i < a.len() && i < b.len()
        invariant
            x == text::views(a@),
            y == text::views(b@),
            i <= a@.len(),
            i <= b@.len(),
            forall|j: int| 0 <= j < i ==> x[j] == y[j],
            path_before(x.skip(i as int), y.skip(i as int)) == path_before(x, y),
        decreases a@.len() - i,
    {
        let place = place_of_part(&a[i], &b[i]);
        assert(x.skip(i as int)[0] == x[i as int]);
        assert(y.skip(i as int)[0] == y[i as int]);
        if place != Place::Same {
            assert(x[i as int] != y[i as int]);
            return place;
        }
        assert(x.skip(i as int).drop_first() =~= x.skip(i + 1));
        assert(y.skip(i as int).drop_first() =~= y.skip(i + 1));
        i += 1;
    }
    if i >= b.len() {
        if i >= a.len() {
            assert(x =~= y);
            Place::Same
        } else {
            assert(x.len() != y.len());
            Place::After
        }
    } else {
        assert(x.len() != y.len());
        Place::Before
    }
}

fn insert(sources: &mut Vec<Source>, source: Source)
    ensures
        text::views(final(sources)@) == with(text::views(old(sources)@), source@),
{
    let mut at: usize = sources.len();
    let ghost all = text::views(sources@);
    let ghost new = source@;
    proof {
        assert(all.take(at as int) =~= all);
        assert(all.skip(at as int) =~= Seq::empty());
        assert(with(all, new) =~= with(all.take(at as int), new) + all.skip(at as int));
    }
    while at > 0
        invariant
            at <= sources@.len(),
            all == text::views(sources@),
            new == source@,
            *sources == *old(sources),
            with(all, new) == with(all.take(at as int), new) + all.skip(at as int),
        ensures
            at <= sources@.len(),
            at > 0 ==> path_before(all[at - 1].path, new.path) && all[at - 1].path != new.path,
        decreases at,
    {
        let ghost now = all.take(at as int);
        let place = place_of_path(&sources[at - 1].path, &source.path);
        proof {
            assert(now.last() == all[at - 1]);
            assert(all[at - 1] == sources@[at - 1]@);
        }
        if place == Place::Same {
            assert(now + all.skip(at as int) =~= all);
            return ;
        }
        if place == Place::Before {
            break;
        }
        proof {
            assert(now.drop_last() =~= all.take(at - 1));
            assert(with(all.take(at - 1), new).push(now.last()) + all.skip(at as int) =~= with(
                all.take(at - 1),
                new,
            ) + all.skip(at - 1));
        }
        at -= 1;
    }
    let ghost before = sources@;
    sources.insert(at, source);
    proof {
        assert(all.take(at as int).len() == at);
        if at > 0 {
            assert(all.take(at as int).last() == all[at - 1]);
        } else {
            assert(all.take(0) =~= Seq::empty());
        }
        assert(with(all.take(at as int), new) =~= all.take(at as int).push(new));
        assert(text::views(sources@) =~= all.take(at as int).push(new) + all.skip(at as int));
    }
}

/// One part of a path, and where it stands in the path as it is written.
struct Placed {
    part: Part,
    start: usize,
    end: usize,
}

/// What a `Placed` says.
pub struct PlacedView {
    pub part: Seq<int>,
    pub start: int,
    pub end: int,
}

impl View for Placed {
    type V = PlacedView;

    closed spec fn view(&self) -> PlacedView {
        PlacedView { part: self.part@, start: self.start as int, end: self.end as int }
    }
}

/// What separates the parts of a path.
pub const SEPARATOR: u8 = 0x2f;

/// Where the segment that starts at a place ends: at the next separator, or with the path.
pub open spec fn segment_end(path: Seq<u8>, from: int) -> int
    decreases path.len() - from,
{
    if from >= path.len() || path[from] == SEPARATOR {
        from
    } else {
        segment_end(path, from + 1)
    }
}

/// A segment ends at or after the place it starts at, within the path.
pub proof fn a_segment_ends_ahead(path: Seq<u8>, from: int)
    requires
        0 <= from <= path.len(),
    ensures
        from <= segment_end(path, from) <= path.len(),
    decreases path.len() - from,
{
    if from < path.len() && path[from] != SEPARATOR {
        a_segment_ends_ahead(path, from + 1);
    }
}

/// The part a segment is. One that is empty is none, and neither is a single dot, but at the start
/// of the path.
pub open spec fn part_of_segment(segment: Seq<u8>, first: bool) -> Option<Seq<int>> {
    if segment.len() == 0 {
        None
    } else if segment == seq![0x2eu8] {
        if first {
            Some(seq![1int])
        } else {
            None
        }
    } else if segment == seq![0x2eu8, 0x2eu8] {
        Some(seq![2int])
    } else {
        Some(seq![3int] + Seq::new(segment.len(), |i: int| segment[i] as int))
    }
}

/// The parts of a path from a place on.
pub open spec fn placed_from(path: Seq<u8>, from: int) -> Seq<PlacedView>
    decreases path.len() + 1 - from,
{
    if from < 0 || from >= path.len() {
        Seq::empty()
    } else {
        proof {
            a_segment_ends_ahead(path, from);
        }
        let end = segment_end(path, from);
        (match part_of_segment(path.subrange(from, end), from == 0) {
            Some(part) => seq![PlacedView { part, start: from, end }],
            None => Seq::empty(),
        }) + placed_from(path, end + 1)
    }
}

/// The parts of a path, in order: the root where the path starts with it, and then its segments.
pub open spec fn placed(path: Seq<u8>) -> Seq<PlacedView> {
    (if path.len() > 0 && path[0] == SEPARATOR {
        seq![PlacedView { part: seq![0int], start: 0, end: 1 }]
    } else {
        Seq::empty()
    }) + placed_from(path, 0)
}

/// The parts of a path, without where they stand.
pub open spec fn parts(path: Seq<u8>) -> Seq<Seq<int>> {
    Seq::new(placed(path).len(), |i: int| placed(path)[i].part)
}

/// What a file is called: what follows the repository's path in its own, as it is written there; and
/// all of its path where it is outside the repository.
pub open spec fn called(repo: Seq<u8>, path: Seq<u8>) -> Seq<u8> {
    let all = placed(path);
    let within = parts(repo).len() as int;
    if !parts(repo).is_prefix_of(parts(path)) {
        path
    } else if within >= all.len() {
        Seq::empty()
    } else {
        path.subrange(all[within].start, all.last().end)
    }
}

/// Every part of a path stands in it, each after the one before.
proof fn parts_stand_in_order(path: Seq<u8>, from: int)
    requires
        0 <= from <= path.len() + 1,
    ensures
        forall|i: int|
            0 <= i < placed_from(path, from).len() ==> from <= (#[trigger] placed_from(
                path,
                from,
            )[i]).start < placed_from(path, from)[i].end <= path.len(),
        forall|i: int, j: int|
            0 <= i < j < placed_from(path, from).len() ==> (#[trigger] placed_from(
                path,
                from,
            )[i]).end <= (#[trigger] placed_from(path, from)[j]).start,
    decreases path.len() + 1 - from,
{
    if from < path.len() {
        a_segment_ends_ahead(path, from);
        let end = segment_end(path, from);
        parts_stand_in_order(path, end + 1);
        let rest = placed_from(path, end + 1);
        let all = placed_from(path, from);
        match part_of_segment(path.subrange(from, end), from == 0) {
            Some(part) => {
                let here = PlacedView { part, start: from, end };
                assert(all =~= seq![here] + rest);
                assert forall|i: int| 0 <= i < all.len() implies from <= (
                #[trigger] all[i]).start < all[i].end <= path.len() by {
                    if i > 0 {
                        assert(all[i] == rest[i - 1]);
                    }
                }
                assert forall|i: int, j: int| 0 <= i < j < all.len() implies (
                #[trigger] all[i]).end <= (#[trigger] all[j]).start by {
                    assert(all[j] == rest[j - 1]);
                    if i > 0 {
                        assert(all[i] == rest[i - 1]);
                    }
                }
            },
            None => {
                assert(all =~= rest);
            },
        }
    }
}

fn part_of(segment: &[u8], first: bool) -> (r: Option<Part>)
    ensures
        text::opt(r) == part_of_segment(segment@, first),
{
    let n: usize = segment.len();
    if n == 0 {
        return None;
    }
    if n == 1 && segment[0] == 0x2e {
        assert(segment@ =~= seq![0x2eu8]);
        return if first {
            Some(Part::Current)
        } else {
            None
        };
    }
    if n == 2 && segment[0] == 0x2e && segment[1] == 0x2e {
        assert(segment@ =~= seq![0x2eu8, 0x2eu8]);
        return Some(Part::Parent);
    }
    assert(segment@ != seq![0x2eu8]);
    assert(segment@ != seq![0x2eu8, 0x2eu8]);
    Some(Part::Name(copied(segment)))
}

fn copied(bytes: &[u8]) -> (r: Vec<u8>)
    ensures
        r@ == bytes@,
{
    let mut out: Vec<u8> = Vec::new();
    let mut i: usize = 0;
    while i < bytes.len()
        invariant
            i <= bytes@.len(),
            out@ == bytes@.take(i as int),
        decreases bytes@.len() - i,
    {
        out.push(bytes[i]);
        i += 1;
        assert(bytes@.take(i as int) =~= bytes@.take(i - 1).push(bytes@[i - 1]));
    }
    assert(bytes@.take(i as int) =~= bytes@);
    out
}

fn place(path: &[u8]) -> (r: Vec<Placed>)
    ensures
        text::views(r@) == placed(path@),
{
    let mut out: Vec<Placed> = Vec::new();
    let n: usize = path.len();
    if n > 0 && path[0] == SEPARATOR {
        out.push(Placed { part: Part::Root, start: 0, end: 1 });
    }
    let mut from: usize = 0;
    assert(text::views(out@) + placed_from(path@, 0) =~= placed(path@));
    while from < n
        invariant
            n == path@.len(),
            from <= n,
            text::views(out@) + placed_from(path@, from as int) == placed(path@),
        decreases n - from,
    {
        let mut end: usize = from;
        while end < n && path[end] != SEPARATOR
            invariant
                n == path@.len(),
                from <= end <= n,
                segment_end(path@, from as int) == segment_end(path@, end as int),
            decreases n - end,
        {
            end += 1;
        }
        let ghost had = text::views(out@);
        let ghost rest = placed_from(path@, end + 1);
        let segment = vstd::slice::slice_subrange(path, from, end);
        if let Some(part) = part_of(segment, from == 0) {
            let here = Placed { part, start: from, end };
            let ghost seen = here@;
            out.push(here);
            assert(text::views(out@) =~= had.push(seen));
            assert(had + (seq![seen] + rest) =~= had.push(seen) + rest);
        } else {
            assert(Seq::<PlacedView>::empty() + rest =~= rest);
        }
        from = if end < n {
            end + 1
        } else {
            end
        };
        assert(placed_from(path@, from as int) == rest);
    }
    assert(text::views(out@) + Seq::<PlacedView>::empty() =~= text::views(out@));
    out
}

fn leads(base: &Vec<Placed>, all: &Vec<Placed>) -> (r: bool)
    ensures
        r == (base@.len() <= all@.len() && forall|i: int|
            0 <= i < base@.len() ==> (#[trigger] base@[i])@.part == all@[i]@.part),
{
    if base.len() > all.len() {
        return false;
    }
    let mut i: usize = 0;
    while i < base.len()
        invariant
            i <= base@.len() <= all@.len(),
            forall|j: int| 0 <= j < i ==> (#[trigger] base@[j])@.part == all@[j]@.part,
        decreases base@.len() - i,
    {
        if place_of_part(&base[i].part, &all[i].part) != Place::Same {
            assert(base@[i as int]@.part != all@[i as int]@.part);
            return false;
        }
        i += 1;
    }
    true
}

impl Source {
    /// The file at a path, in a repository at another, both as they are written.
    pub fn at(repo: &[u8], path: &[u8], contents: Option<Vec<u8>>) -> (r: Source)
        ensures
            r@.path == parts(path@),
            r@.name == called(repo@, path@),
            r.contents == contents,
    {
        let all = place(path);
        let base = place(repo);
        let ghost views = text::views(all@);
        let ghost own = parts(path@);
        proof {
            parts_stand_in_order(path@, 0);
            assert forall|i: int| 0 <= i < base@.len() implies (#[trigger] base@[i])@.part == parts(
                repo@,
            )[i] by {
                assert(text::views(base@)[i] == placed(repo@)[i]);
            }
            assert forall|i: int| 0 <= i < all@.len() implies (#[trigger] all@[i])@.part == own[i]
                && all@[i]@ == placed(path@)[i] by {
                assert(views[i] == placed(path@)[i]);
            }
            assert(text::views(base@).len() == base@.len());
            assert(views.len() == all@.len());
        }
        let name = if !leads(&base, &all) {
            proof {
                if parts(repo@).is_prefix_of(own) {
                    assert forall|i: int| 0 <= i < base@.len() implies (
                    #[trigger] base@[i])@.part == all@[i]@.part by {
                        assert(parts(repo@)[i] == own.take(base@.len() as int)[i]);
                    }
                }
            }
            copied(path)
        } else {
            assert(parts(repo@) =~= own.take(base@.len() as int));
            if base.len() >= all.len() {
                let nothing: Vec<u8> = Vec::new();
                assert(nothing@ =~= Seq::empty());
                nothing
            } else {
                let first = &all[base.len()];
                let last = &all[all.len() - 1];
                proof {
                    stands_within(path@, base@.len() as int);
                }
                copied(vstd::slice::slice_subrange(path, first.start, last.end))
            }
        };
        let mut list: Vec<Part> = Vec::new();
        for placed in it: all
            invariant
                it.seq() == all@,
                text::views(list@) == own.take(it.index() as int),
                own.len() == all@.len(),
                forall|i: int| 0 <= i < all@.len() ==> (#[trigger] all@[i])@.part == own[i],
        {
            let ghost had = text::views(list@);
            let ghost n = it.index() as int;
            list.push(placed.part);
            assert(text::views(list@) =~= had.push(own[n]));
            assert(own.take(n + 1) =~= own.take(n).push(own[n]));
        }
        assert(own.take(own.len() as int) =~= own);
        Source { path: list, name, contents }
    }
}

proof fn stands_within(path: Seq<u8>, k: int)
    requires
        0 <= k < placed(path).len(),
    ensures
        0 <= placed(path)[k].start <= placed(path).last().end <= path.len(),
{
    parts_stand_in_order(path, 0);
    let rest = placed_from(path, 0);
    let all = placed(path);
    let lead = all.len() - rest.len();
    assert forall|i: int| lead <= i < all.len() implies all[i] == rest[i - lead] by {}
    if k < all.len() - 1 && k >= lead {
        assert(rest[k - lead].end <= rest[rest.len() - 1].start);
    }
}

/// The sources in order of their paths, each path once. Sorted, because the order in which a
/// directory is listed is the filesystem's business.
pub fn arrange(sources: Vec<Source>) -> (r: Vec<Source>)
    ensures
        text::views(r@) == arranged(text::views(sources@)),
{
    let mut out: Vec<Source> = Vec::new();
    let ghost all = text::views(sources@);
    assert(text::views(out@) =~= arranged(all.take(0)));
    for source in it: sources
        invariant
            all == text::views(it.seq()),
            text::views(out@) == arranged(all.take(it.index() as int)),
    {
        let ghost i = it.index() as int;
        assert(all[i] == source@);
        insert(&mut out, source);
        proof {
            assert(all.take(i + 1).drop_last() =~= all.take(i));
            assert(all.take(i + 1).last() == all[i]);
        }
    }
    assert(all.take(all.len() as int) =~= all);
    out
}

/// Whether a file's name is that of a script: something, and then `.ts`.
pub open spec fn script_name(name: Seq<u8>) -> bool {
    &&& name.len() > 3
    &&& name[name.len() - 3] == 0x2e
    &&& name[name.len() - 2] == 0x74
    &&& name[name.len() - 1] == 0x73
}

/// Whether a file of the rules' or the workflows' directory is one of the graph's scripts.
pub fn is_script(name: &[u8]) -> (r: bool)
    ensures
        r == script_name(name@),
{
    let n: usize = name.len();
    n > 3 && name[n - 3] == 0x2e && name[n - 2] == 0x74 && name[n - 1] == 0x73
}

/// The offset the hash starts from.
pub const FNV_OFFSET: u64 = 0xcbf2_9ce4_8422_2325;

/// The prime the hash multiplies by.
pub const FNV_PRIME: u64 = 0x0000_0100_0000_01b3;

/// The hash of some bytes, going on from what it was before them.
pub open spec fn fnv(hash: u64, bytes: Seq<u8>) -> u64
    decreases bytes.len(),
{
    if bytes.len() == 0 {
        hash
    } else {
        (fnv(hash, bytes.drop_last()) ^ (bytes.last() as u64)).wrapping_mul(FNV_PRIME)
    }
}

/// One input as it is folded: its length, then itself. So where one input ends and the next begins
/// is itself hashed; a flat concatenation is the same stream however it is partitioned.
pub open spec fn framed(bytes: Seq<u8>) -> Seq<u8> {
    vstd::bytes::spec_u64_to_le_bytes(bytes.len() as u64) + bytes
}

/// One source as it is folded: its name, whether it is there, and what it holds. Absent and empty
/// are folded apart: creating an empty workflow is a change to the graph.
pub open spec fn source_stream(source: SourceView) -> Seq<u8> {
    framed(source.name) + (match source.contents {
        Some(contents) => framed(seq![1u8]) + framed(contents),
        None => framed(seq![0u8]) + framed(Seq::empty()),
    })
}

/// Some sources as they are folded.
pub open spec fn sources_stream(sources: Seq<SourceView>) -> Seq<u8>
    decreases sources.len(),
{
    if sources.len() == 0 {
        Seq::empty()
    } else {
        sources_stream(sources.drop_last()) + source_stream(sources.last())
    }
}

/// Everything that is folded: the definitions and the orchestration that ship with the program, and
/// then the repository's own.
pub open spec fn graph_stream(
    definitions: Seq<char>,
    orchestration: Seq<char>,
    sources: Seq<SourceView>,
) -> Seq<u8> {
    framed(vstd::utf8::encode_utf8(definitions)) + framed(vstd::utf8::encode_utf8(orchestration))
        + sources_stream(sources)
}

/// The fingerprint of a graph.
pub open spec fn fingerprint(
    definitions: Seq<char>,
    orchestration: Seq<char>,
    sources: Seq<SourceView>,
) -> Seq<char> {
    checkpoint::hex(
        fnv(FNV_OFFSET, graph_stream(definitions, orchestration, arranged(sources))) as nat,
        16,
    )
}

proof fn fnv_goes_on(hash: u64, a: Seq<u8>, b: Seq<u8>)
    ensures
        fnv(hash, a + b) == fnv(fnv(hash, a), b),
    decreases b.len(),
{
    if b.len() == 0 {
        assert(a + b =~= a);
    } else {
        assert((a + b).drop_last() =~= a + b.drop_last());
        assert((a + b).last() == b.last());
        fnv_goes_on(hash, a, b.drop_last());
    }
}

fn fold(hash: u64, bytes: &[u8]) -> (r: u64)
    ensures
        r == fnv(hash, bytes@),
{
    let mut h: u64 = hash;
    let mut i: usize = 0;
    assert(bytes@.take(0) =~= Seq::empty());
    while i < bytes.len()
        invariant
            i <= bytes@.len(),
            h == fnv(hash, bytes@.take(i as int)),
        decreases bytes@.len() - i,
    {
        h = (h ^ (bytes[i] as u64)).wrapping_mul(FNV_PRIME);
        i += 1;
        proof {
            assert(bytes@.take(i as int).drop_last() =~= bytes@.take(i - 1));
            assert(bytes@.take(i as int).last() == bytes@[i - 1]);
        }
    }
    assert(bytes@.take(i as int) =~= bytes@);
    h
}

fn fold_framed(hash: u64, bytes: &[u8]) -> (r: u64)
    ensures
        r == fnv(hash, framed(bytes@)),
{
    let length = vstd::bytes::u64_to_le_bytes(bytes.len() as u64);
    let h: u64 = fold(hash, length.as_slice());
    proof {
        fnv_goes_on(hash, length@, bytes@);
    }
    fold(h, bytes)
}

fn fold_source(hash: u64, source: &Source) -> (r: u64)
    ensures
        r == fnv(hash, source_stream(source@)),
{
    let named: u64 = fold_framed(hash, source.name.as_slice());
    let ghost name = framed(source.name@);
    match &source.contents {
        Some(contents) => {
            let flag: [u8; 1] = [1];
            let there: u64 = fold_framed(named, &flag);
            proof {
                assert(flag@ =~= seq![1u8]);
                fnv_goes_on(hash, name, framed(seq![1u8]) + framed(contents@));
                fnv_goes_on(named, framed(seq![1u8]), framed(contents@));
            }
            fold_framed(there, contents.as_slice())
        },
        None => {
            let flag: [u8; 1] = [0];
            let there: u64 = fold_framed(named, &flag);
            let nothing: Vec<u8> = Vec::new();
            proof {
                assert(flag@ =~= seq![0u8]);
                assert(nothing@ =~= Seq::empty());
                fnv_goes_on(hash, name, framed(seq![0u8]) + framed(Seq::empty()));
                fnv_goes_on(named, framed(seq![0u8]), framed(Seq::empty()));
            }
            fold_framed(there, nothing.as_slice())
        },
    }
}

/// The fingerprint of the orchestration a run executes. The definitions and the orchestration that
/// ship with the program are part of it: no file of the repository says what they are, and two
/// builds that run different graphs must not report one fingerprint.
pub fn graph_fingerprint_of(orchestration: &str, definitions: &str, sources: Vec<Source>) -> (r:
    String)
    ensures
        r@ == fingerprint(definitions@, orchestration@, text::views(sources@)),
{
    let list = arrange(sources);
    let ghost all = text::views(list@);
    let ghost first = framed(vstd::utf8::encode_utf8(definitions@));
    let ghost second = framed(vstd::utf8::encode_utf8(orchestration@));
    let mut hash: u64 = fold_framed(FNV_OFFSET, definitions.as_bytes());
    hash = fold_framed(hash, orchestration.as_bytes());
    proof {
        fnv_goes_on(FNV_OFFSET, first, second);
        assert(all.take(0) =~= Seq::empty());
        assert(sources_stream(all.take(0)) =~= Seq::empty());
        assert(first + second + sources_stream(all.take(0)) =~= first + second);
    }
    let mut i: usize = 0;
    while i < list.len()
        invariant
            i <= list@.len(),
            all == text::views(list@),
            hash == fnv(FNV_OFFSET, first + second + sources_stream(all.take(i as int))),
        decreases list@.len() - i,
    {
        hash = fold_source(hash, &list[i]);
        proof {
            let before = first + second + sources_stream(all.take(i as int));
            let this = source_stream(all[i as int]);
            fnv_goes_on(FNV_OFFSET, before, this);
            assert(all.take(i + 1).drop_last() =~= all.take(i as int));
            assert(all.take(i + 1).last() == all[i as int]);
            assert(before + this =~= first + second + sources_stream(all.take(i + 1)));
        }
        i += 1;
    }
    assert(all.take(i as int) =~= all);
    checkpoint::sixteen_hex(hash)
}

/// In order of their paths, and so no path twice.
pub open spec fn in_order(sources: Seq<SourceView>) -> bool {
    forall|i: int, j: int|
        0 <= i < j < sources.len() ==> path_before(
            (#[trigger] sources[i]).path,
            (#[trigger] sources[j]).path,
        )
}

/// One path, one file: two entries of a list with the same path are the same.
pub open spec fn consistent(sources: Seq<SourceView>) -> bool {
    forall|i: int, j: int|
        0 <= i < sources.len() && 0 <= j < sources.len() && (#[trigger] sources[i]).path == (
        #[trigger] sources[j]).path ==> sources[i] == sources[j]
}

proof fn with_keeps_order(set: Seq<SourceView>, source: SourceView)
    requires
        in_order(set),
        forall|i: int| 0 <= i < set.len() && (#[trigger] set[i]).path == source.path ==> set[i] == source,
    ensures
        in_order(with(set, source)),
        forall|x: SourceView| #[trigger]
            with(set, source).contains(x) <==> (set.contains(x) || x == source),
    decreases set.len(),
{
    let grown = with(set, source);
    if set.len() == 0 {
        assert(grown[0] == source);
    } else if set.last().path == source.path {
        assert(set[set.len() - 1] == source);
    } else if path_before(set.last().path, source.path) {
        assert forall|i: int, j: int| 0 <= i < j < grown.len() implies path_before(
            (#[trigger] grown[i]).path,
            (#[trigger] grown[j]).path,
        ) by {
            if j == set.len() && i < set.len() - 1 {
                paths_chain(set[i].path, set.last().path, source.path);
            }
        }
        assert forall|x: SourceView| #[trigger] grown.contains(x) <==> (set.contains(x) || x
            == source) by {
            if set.contains(x) {
                let k = choose|k: int| 0 <= k < set.len() && set[k] == x;
                assert(grown[k] == x);
            }
            if x == source {
                assert(grown[set.len() as int] == x);
            }
        }
    } else {
        let front = set.drop_last();
        let inner = with(front, source);
        assert forall|i: int| 0 <= i < front.len() && (#[trigger] front[i]).path
            == source.path implies front[i] == source by {
            assert(set[i] == front[i]);
        }
        with_keeps_order(front, source);
        paths_are_ordered(set.last().path, source.path);
        assert(grown == inner.push(set.last()));
        assert forall|i: int| 0 <= i < inner.len() implies path_before(
            (#[trigger] inner[i]).path,
            set.last().path,
        ) by {
            assert(inner.contains(inner[i]));
            if front.contains(inner[i]) {
                let k = choose|k: int| 0 <= k < front.len() && front[k] == inner[i];
                assert(path_before(set[k].path, set[set.len() - 1].path));
            }
        }
        assert forall|x: SourceView| #[trigger] grown.contains(x) <==> (set.contains(x) || x
            == source) by {
            if grown.contains(x) {
                let k = choose|k: int| 0 <= k < grown.len() && grown[k] == x;
                if k < inner.len() {
                    assert(inner.contains(x));
                    if front.contains(x) {
                        let m = choose|m: int| 0 <= m < front.len() && front[m] == x;
                        assert(set[m] == x);
                    }
                } else {
                    assert(set[set.len() - 1] == x);
                }
            }
            if set.contains(x) || x == source {
                if x == set.last() {
                    assert(grown[inner.len() as int] == x);
                } else {
                    if set.contains(x) {
                        let m = choose|m: int| 0 <= m < set.len() && set[m] == x;
                        assert(front[m] == x);
                    }
                    assert(inner.contains(x));
                    let k = choose|k: int| 0 <= k < inner.len() && inner[k] == x;
                    assert(grown[k] == x);
                }
            }
        }
    }
}

/// Arranged sources are in order, and are exactly those that were given.
pub proof fn arranging_keeps_every_source(sources: Seq<SourceView>)
    requires
        consistent(sources),
    ensures
        in_order(arranged(sources)),
        forall|x: SourceView| #[trigger] arranged(sources).contains(x) <==> sources.contains(x),
    decreases sources.len(),
{
    if sources.len() > 0 {
        let front = sources.drop_last();
        let last = sources.last();
        assert forall|i: int, j: int|
            0 <= i < front.len() && 0 <= j < front.len() && (#[trigger] front[i]).path == (
            #[trigger] front[j]).path implies front[i] == front[j] by {
            assert(sources[i] == front[i] && sources[j] == front[j]);
        }
        arranging_keeps_every_source(front);
        let set = arranged(front);
        assert forall|i: int| 0 <= i < set.len() && (#[trigger] set[i]).path
            == last.path implies set[i] == last by {
            assert(set.contains(set[i]));
            let k = choose|k: int| 0 <= k < front.len() && front[k] == set[i];
            assert(sources[k] == set[i]);
            assert(sources[sources.len() - 1] == last);
        }
        with_keeps_order(set, last);
        assert forall|x: SourceView| #[trigger] arranged(sources).contains(x) <==> sources.contains(
            x,
        ) by {
            if sources.contains(x) {
                let k = choose|k: int| 0 <= k < sources.len() && sources[k] == x;
                if k < front.len() {
                    assert(front[k] == x);
                }
            }
            if front.contains(x) {
                let k = choose|k: int| 0 <= k < front.len() && front[k] == x;
                assert(sources[k] == x);
            }
            if x == last {
                assert(sources[sources.len() - 1] == x);
            }
        }
    }
}

proof fn last_is_apart(a: Seq<SourceView>, x: SourceView)
    requires
        in_order(a),
        a.len() > 0,
    ensures
        a.drop_last().contains(x) <==> (a.contains(x) && x != a.last()),
{
    if a.drop_last().contains(x) {
        let k = choose|k: int| 0 <= k < a.len() - 1 && a.drop_last()[k] == x;
        assert(a[k] == x);
        assert(path_before(a[k].path, a[a.len() - 1].path));
        paths_are_ordered(x.path, a.last().path);
    }
    if a.contains(x) && x != a.last() {
        let k = choose|k: int| 0 <= k < a.len() && a[k] == x;
        assert(a.drop_last()[k] == x);
    }
}

proof fn ordered_lists_are_equal(a: Seq<SourceView>, b: Seq<SourceView>)
    requires
        in_order(a),
        in_order(b),
        forall|x: SourceView| a.contains(x) <==> b.contains(x),
    ensures
        a == b,
    decreases a.len(),
{
    if a.len() == 0 {
        if b.len() > 0 {
            assert(b.contains(b[0]));
        }
        assert(a =~= b);
    } else {
        assert(a.contains(a.last()));
        assert(b.contains(a.last()));
        assert(b.contains(b.last()));
        assert(a.contains(b.last()));
        let i = choose|i: int| 0 <= i < b.len() && b[i] == a.last();
        let j = choose|j: int| 0 <= j < a.len() && a[j] == b.last();
        if a.last() != b.last() {
            assert(path_before(b[i].path, b[b.len() - 1].path));
            assert(path_before(a[j].path, a[a.len() - 1].path));
            paths_are_ordered(a.last().path, b.last().path);
        }
        let fa = a.drop_last();
        let fb = b.drop_last();
        assert forall|x: SourceView| fa.contains(x) <==> fb.contains(x) by {
            last_is_apart(a, x);
            last_is_apart(b, x);
        }
        ordered_lists_are_equal(fa, fb);
        assert(a =~= fa.push(a.last()));
        assert(b =~= fb.push(b.last()));
    }
}

/// The order in which the files are listed never shows, nor how often one is: two listings of the
/// same files have one fingerprint.
pub proof fn listing_order_does_not_matter(
    definitions: Seq<char>,
    orchestration: Seq<char>,
    a: Seq<SourceView>,
    b: Seq<SourceView>,
)
    requires
        consistent(a),
        consistent(b),
        forall|x: SourceView| a.contains(x) <==> b.contains(x),
    ensures
        fingerprint(definitions, orchestration, a) == fingerprint(definitions, orchestration, b),
{
    arranging_keeps_every_source(a);
    arranging_keeps_every_source(b);
    assert forall|x: SourceView| arranged(a).contains(x) <==> arranged(b).contains(x) by {
        assert(a.contains(x) <==> b.contains(x));
    }
    ordered_lists_are_equal(arranged(a), arranged(b));
}

/// The files of a repository, each by its path within it and what it holds, as they are found in a
/// checkout at a path.
pub open spec fn checked_out(repo: Seq<u8>, files: Seq<(Seq<u8>, Option<Seq<u8>>)>) -> Seq<
    SourceView,
> {
    Seq::new(
        files.len(),
        |i: int|
            SourceView {
                path: parts(below(repo, files[i].0)),
                name: called(repo, below(repo, files[i].0)),
                contents: files[i].1,
            },
    )
}

/// A path below another.
pub open spec fn below(repo: Seq<u8>, rest: Seq<u8>) -> Seq<u8> {
    repo.push(SEPARATOR) + rest
}

proof fn segments_before_a_separator(repo: Seq<u8>, rest: Seq<u8>, from: int)
    requires
        0 <= from <= repo.len(),
    ensures
        segment_end(below(repo, rest), from) == segment_end(repo, from),
    decreases repo.len() - from,
{
    if from < repo.len() && repo[from] != SEPARATOR {
        segments_before_a_separator(repo, rest, from + 1);
    }
}

/// The parts of a path below another are the other's, and then its own.
proof fn parts_go_on(repo: Seq<u8>, rest: Seq<u8>, from: int)
    requires
        0 <= from <= repo.len(),
    ensures
        placed_from(below(repo, rest), from) == placed_from(repo, from) + placed_from(
            below(repo, rest),
            repo.len() as int + 1,
        ),
    decreases repo.len() - from,
{
    let path = below(repo, rest);
    let n = repo.len() as int;
    let tail = placed_from(path, n + 1);
    segments_before_a_separator(repo, rest, from);
    a_segment_ends_ahead(repo, from);
    let end = segment_end(repo, from);
    assert(path.subrange(from, end) =~= repo.subrange(from, end));
    if from < n {
        if end < n {
            parts_go_on(repo, rest, end + 1);
        } else {
            assert(placed_from(repo, end + 1) + tail =~= tail);
        }
    }
    assert(placed_from(path, from) =~= placed_from(repo, from) + tail);
}

proof fn segments_below(a: Seq<u8>, b: Seq<u8>, rest: Seq<u8>, from: int)
    requires
        0 <= from <= rest.len(),
    ensures
        segment_end(below(a, rest), a.len() + 1 + from) - a.len() == segment_end(
            below(b, rest),
            b.len() + 1 + from,
        ) - b.len(),
    decreases rest.len() - from,
{
    if from < rest.len() {
        assert(below(a, rest)[a.len() + 1 + from] == rest[from]);
        assert(below(b, rest)[b.len() + 1 + from] == rest[from]);
        if rest[from] != SEPARATOR {
            segments_below(a, b, rest, from + 1);
        }
    }
}

/// Below two paths the same parts stand at the same places.
proof fn the_same_parts_follow(a: Seq<u8>, b: Seq<u8>, rest: Seq<u8>, from: int)
    requires
        0 <= from <= rest.len() + 1,
    ensures
        ({
            let x = placed_from(below(a, rest), a.len() + 1 + from);
            let y = placed_from(below(b, rest), b.len() + 1 + from);
            &&& x.len() == y.len()
            &&& forall|i: int|
                0 <= i < x.len() ==> {
                    &&& (#[trigger] x[i]).part == y[i].part
                    &&& x[i].start - a.len() == y[i].start - b.len()
                    &&& x[i].end - a.len() == y[i].end - b.len()
                }
        }),
    decreases rest.len() + 1 - from,
{
    if from < rest.len() {
        let pa = below(a, rest);
        let pb = below(b, rest);
        let fa = a.len() + 1 + from;
        let fb = b.len() + 1 + from;
        segments_below(a, b, rest, from);
        a_segment_ends_ahead(pa, fa);
        a_segment_ends_ahead(pb, fb);
        let ea = segment_end(pa, fa);
        let eb = segment_end(pb, fb);
        assert(pa.subrange(fa, ea) =~= pb.subrange(fb, eb));
        the_same_parts_follow(a, b, rest, ea - a.len());
    }
}

/// The parts of a path below another, from where its own begin.
spec fn own_parts(repo: Seq<u8>, rest: Seq<u8>) -> Seq<Seq<int>> {
    let own = placed_from(below(repo, rest), repo.len() as int + 1);
    Seq::new(own.len(), |i: int| own[i].part)
}

/// What a path below another comes to: the other's parts and then its own, and the name that those
/// have in it.
proof fn a_path_below(repo: Seq<u8>, rest: Seq<u8>)
    requires
        repo.len() > 0,
    ensures
        ({
            let own = placed_from(below(repo, rest), repo.len() as int + 1);
            let lead = repo.len() + 1;
            &&& parts(below(repo, rest)) == parts(repo) + own_parts(repo, rest)
            &&& own.len() == 0 ==> called(repo, below(repo, rest)) == Seq::<u8>::empty()
            &&& own.len() > 0 ==> called(repo, below(repo, rest)) == rest.subrange(
                own[0].start - lead,
                own.last().end - lead,
            )
        }),
{
    let path = below(repo, rest);
    let own = placed_from(path, repo.len() as int + 1);
    parts_go_on(repo, rest, 0);
    assert(placed(path) =~= placed(repo) + own);
    let n = parts(repo).len() as int;
    assert(parts(path) =~= parts(repo) + own_parts(repo, rest));
    assert(parts(path).take(n) =~= parts(repo));
    if own.len() > 0 {
        parts_stand_in_order(path, repo.len() as int + 1);
        let last = own.len() - 1;
        assert(placed(path)[n] == own[0] && placed(path).last() == own[last]);
        assert(own[0].start < own[0].end <= own[last].end);
        let lead = repo.len() + 1;
        assert(path.subrange(own[0].start, own[last].end) =~= rest.subrange(
            own[0].start - lead,
            own[last].end - lead,
        ));
    }
}

/// The sources with their paths put below another.
spec fn relocated(sources: Seq<SourceView>, lead: Seq<Seq<int>>) -> Seq<SourceView> {
    Seq::new(
        sources.len(),
        |i: int| SourceView { path: lead + sources[i].path, ..sources[i] },
    )
}

proof fn a_common_lead_keeps_order(lead: Seq<Seq<int>>, a: Seq<Seq<int>>, b: Seq<Seq<int>>)
    ensures
        path_before(lead + a, lead + b) == path_before(a, b),
        lead + a == lead + b <==> a == b,
    decreases lead.len(),
{
    if lead.len() == 0 {
        assert(lead + a =~= a);
        assert(lead + b =~= b);
    } else {
        a_common_lead_keeps_order(lead.drop_first(), a, b);
        assert((lead + a).drop_first() =~= lead.drop_first() + a);
        assert((lead + b).drop_first() =~= lead.drop_first() + b);
        assert((lead + a)[0] == lead[0] && (lead + b)[0] == lead[0]);
    }
}

proof fn relocating_keeps_places(
    set: Seq<SourceView>,
    source: SourceView,
    lead: Seq<Seq<int>>,
)
    ensures
        relocated(with(set, source), lead) == with(
            relocated(set, lead),
            relocated(seq![source], lead)[0],
        ),
    decreases set.len(),
{
    let new = relocated(seq![source], lead)[0];
    let all = relocated(set, lead);
    if set.len() == 0 {
        assert(relocated(with(set, source), lead) =~= with(all, new));
    } else {
        let front = set.drop_last();
        relocating_keeps_places(front, source, lead);
        a_common_lead_keeps_order(lead, set.last().path, source.path);
        assert(relocated(front, lead) =~= all.drop_last());
        assert(relocated(with(set, source), lead) =~= with(all, new));
    }
}

proof fn relocating_arranged(sources: Seq<SourceView>, lead: Seq<Seq<int>>)
    ensures
        arranged(relocated(sources, lead)) == relocated(arranged(sources), lead),
    decreases sources.len(),
{
    let all = relocated(sources, lead);
    if sources.len() == 0 {
        assert(arranged(all) =~= relocated(arranged(sources), lead));
    } else {
        let front = sources.drop_last();
        relocating_arranged(front, lead);
        assert(relocated(front, lead) =~= all.drop_last());
        assert(relocated(seq![sources.last()], lead)[0] == all.last());
        relocating_keeps_places(arranged(front), sources.last(), lead);
    }
}

proof fn relocating_does_not_show(sources: Seq<SourceView>, lead: Seq<Seq<int>>)
    ensures
        sources_stream(relocated(sources, lead)) == sources_stream(sources),
    decreases sources.len(),
{
    if sources.len() > 0 {
        relocating_does_not_show(sources.drop_last(), lead);
        assert(relocated(sources, lead).drop_last() =~= relocated(sources.drop_last(), lead));
    }
}

/// Where a repository is checked out does not show: the same files at the same paths within it have
/// one fingerprint, whatever the path of the checkout.
pub proof fn where_the_repository_is_does_not_show(
    definitions: Seq<char>,
    orchestration: Seq<char>,
    a: Seq<u8>,
    b: Seq<u8>,
    files: Seq<(Seq<u8>, Option<Seq<u8>>)>,
)
    requires
        a.len() > 0,
        b.len() > 0,
    ensures
        fingerprint(definitions, orchestration, checked_out(a, files)) == fingerprint(
            definitions,
            orchestration,
            checked_out(b, files),
        ),
{
    let own = Seq::new(
        files.len(),
        |i: int| SourceView { path: own_parts(a, files[i].0), ..checked_out(a, files)[i] },
    );
    assert forall|i: int| 0 <= i < files.len() implies #[trigger] checked_out(a, files)[i]
        == relocated(own, parts(a))[i] && checked_out(b, files)[i] == relocated(own, parts(b))[i] by {
        let rest = files[i].0;
        a_path_below(a, rest);
        a_path_below(b, rest);
        the_same_parts_follow(a, b, rest, 0);
        assert(own_parts(a, rest) =~= own_parts(b, rest));
    }
    assert(checked_out(a, files) =~= relocated(own, parts(a)));
    assert(checked_out(b, files) =~= relocated(own, parts(b)));
    relocating_arranged(own, parts(a));
    relocating_arranged(own, parts(b));
    relocating_does_not_show(arranged(own), parts(a));
    relocating_does_not_show(arranged(own), parts(b));
}

/// What undoes a multiplication by the prime.
const FNV_INVERSE: u64 = 0xce96_5057_aff6_957b;

/// One step of the hash loses nothing of what it was before.
proof fn a_step_can_be_undone(a: u64, b: u64)
    requires
        a.wrapping_mul(FNV_PRIME) == b.wrapping_mul(FNV_PRIME),
    ensures
        a == b,
{
    let m: int = 0x1_0000_0000_0000_0000;
    let p = FNV_PRIME as int;
    let q = FNV_INVERSE as int;
    assert((p * q) % m == 1) by (nonlinear_arith)
        requires
            p == 0x0000_0100_0000_01b3,
            q == 0xce96_5057_aff6_957b,
            m == 0x1_0000_0000_0000_0000,
    ;
    undone(a as int, p, q, m);
    undone(b as int, p, q, m);
    assert((a as int * p) % m == (b as int * p) % m);
}

proof fn undone(x: int, p: int, q: int, m: int)
    requires
        0 <= x < m,
        (p * q) % m == 1,
    ensures
        (((x * p) % m) * q) % m == x,
{
    vstd::arithmetic::div_mod::lemma_mul_mod_noop_left(x * p, q, m);
    vstd::arithmetic::mul::lemma_mul_is_associative(x, p, q);
    vstd::arithmetic::div_mod::lemma_mul_mod_noop_right(x, p * q, m);
    vstd::arithmetic::div_mod::lemma_small_mod(x as nat, m as nat);
}

/// Going on with the same bytes keeps two different hashes apart.
proof fn the_same_bytes_keep_hashes_apart(a: u64, b: u64, bytes: Seq<u8>)
    requires
        a != b,
    ensures
        fnv(a, bytes) != fnv(b, bytes),
    decreases bytes.len(),
{
    if bytes.len() > 0 {
        let x = fnv(a, bytes.drop_last());
        let y = fnv(b, bytes.drop_last());
        let c = bytes.last() as u64;
        the_same_bytes_keep_hashes_apart(a, b, bytes.drop_last());
        assert(x != y ==> x ^ c != y ^ c) by (bit_vector);
        if (x ^ c).wrapping_mul(FNV_PRIME) == (y ^ c).wrapping_mul(FNV_PRIME) {
            a_step_can_be_undone(x ^ c, y ^ c);
        }
    }
}

/// Streams that differ in one byte never have one hash.
proof fn one_byte_of_a_stream_shows(hash: u64, before: Seq<u8>, x: u8, y: u8, after: Seq<u8>)
    requires
        x != y,
    ensures
        fnv(hash, before.push(x) + after) != fnv(hash, before.push(y) + after),
{
    fnv_goes_on(hash, before.push(x), after);
    fnv_goes_on(hash, before.push(y), after);
    assert(before.push(x).drop_last() =~= before);
    assert(before.push(y).drop_last() =~= before);
    let h = fnv(hash, before);
    let a = x as u64;
    let b = y as u64;
    assert(a != b ==> h ^ a != h ^ b) by (bit_vector);
    if (h ^ a).wrapping_mul(FNV_PRIME) == (h ^ b).wrapping_mul(FNV_PRIME) {
        a_step_can_be_undone(h ^ a, h ^ b);
    }
    the_same_bytes_keep_hashes_apart(
        fnv(hash, before.push(x)),
        fnv(hash, before.push(y)),
        after,
    );
}

/// A fingerprint is sixteen hexadecimal digits, in lower case.
pub proof fn a_fingerprint_is_sixteen_digits(
    definitions: Seq<char>,
    orchestration: Seq<char>,
    sources: Seq<SourceView>,
)
    ensures
        fingerprint(definitions, orchestration, sources).len() == 16,
        forall|i: int|
            0 <= i < 16 ==> exists|d: int|
                0 <= d < 16 && #[trigger] checkpoint::hex_digit(d) == #[trigger] fingerprint(
                    definitions,
                    orchestration,
                    sources,
                )[i],
{
    let hash = fnv(FNV_OFFSET, graph_stream(definitions, orchestration, arranged(sources)));
    checkpoint::hex_is_digits(hash as nat, 16);
}

/// The sources with the file at a path holding something else.
pub open spec fn refilled(
    sources: Seq<SourceView>,
    path: Seq<Seq<int>>,
    contents: Option<Seq<u8>>,
) -> Seq<SourceView> {
    Seq::new(
        sources.len(),
        |i: int|
            if sources[i].path == path {
                SourceView { contents, ..sources[i] }
            } else {
                sources[i]
            },
    )
}

proof fn refilling_keeps_places(
    set: Seq<SourceView>,
    source: SourceView,
    path: Seq<Seq<int>>,
    contents: Option<Seq<u8>>,
)
    ensures
        refilled(with(set, source), path, contents) == with(
            refilled(set, path, contents),
            refilled(seq![source], path, contents)[0],
        ),
    decreases set.len(),
{
    let new = refilled(seq![source], path, contents)[0];
    let all = refilled(set, path, contents);
    if set.len() == 0 {
        assert(refilled(with(set, source), path, contents) =~= with(all, new));
    } else {
        let front = set.drop_last();
        refilling_keeps_places(front, source, path, contents);
        assert(refilled(front, path, contents) =~= all.drop_last());
        assert(refilled(with(set, source), path, contents) =~= with(all, new));
    }
}

proof fn refilling_arranged(
    sources: Seq<SourceView>,
    path: Seq<Seq<int>>,
    contents: Option<Seq<u8>>,
)
    ensures
        arranged(refilled(sources, path, contents)) == refilled(arranged(sources), path, contents),
    decreases sources.len(),
{
    let all = refilled(sources, path, contents);
    if sources.len() == 0 {
        assert(arranged(all) =~= refilled(arranged(sources), path, contents));
    } else {
        let front = sources.drop_last();
        refilling_arranged(front, path, contents);
        assert(refilled(front, path, contents) =~= all.drop_last());
        assert(refilled(seq![sources.last()], path, contents)[0] == all.last());
        refilling_keeps_places(arranged(front), sources.last(), path, contents);
    }
}

proof fn streams_chain(a: Seq<SourceView>, b: Seq<SourceView>)
    ensures
        sources_stream(a + b) == sources_stream(a) + sources_stream(b),
    decreases b.len(),
{
    if b.len() == 0 {
        assert(a + b =~= a);
        assert(sources_stream(a) + sources_stream(b) =~= sources_stream(a));
    } else {
        assert((a + b).drop_last() =~= a + b.drop_last());
        streams_chain(a, b.drop_last());
        assert(sources_stream(a + b) =~= sources_stream(a) + sources_stream(b));
    }
}

/// A change to one file that changes one byte of what is folded always shows.
proof fn one_folded_byte_shows(
    definitions: Seq<char>,
    orchestration: Seq<char>,
    sources: Seq<SourceView>,
    k: int,
    contents: Option<Seq<u8>>,
    before: Seq<u8>,
    x: u8,
    y: u8,
    after: Seq<u8>,
)
    requires
        consistent(sources),
        0 <= k < sources.len(),
        x != y,
        source_stream(sources[k]) == before.push(x) + after,
        source_stream(SourceView { contents, ..sources[k] }) == before.push(y) + after,
    ensures
        fingerprint(definitions, orchestration, sources) != fingerprint(
            definitions,
            orchestration,
            refilled(sources, sources[k].path, contents),
        ),
{
    let path = sources[k].path;
    let all = arranged(sources);
    let changed = refilled(all, path, contents);
    refilling_arranged(sources, path, contents);
    arranging_keeps_every_source(sources);
    assert(sources.contains(sources[k]));
    assert(all.contains(sources[k]));
    let m = choose|m: int| 0 <= m < all.len() && all[m] == sources[k];
    assert forall|i: int| 0 <= i < all.len() && i != m implies all[i].path != path by {
        if i < m {
            assert(path_before(all[i].path, all[m].path));
        } else {
            assert(path_before(all[m].path, all[i].path));
        }
        paths_are_ordered(all[i].path, all[m].path);
        paths_are_ordered(all[m].path, all[i].path);
    }
    let first = all.take(m);
    let rest = all.skip(m + 1);
    assert(all =~= first.push(all[m]) + rest);
    assert(changed =~= first.push(changed[m]) + rest);
    streams_chain(first.push(all[m]), rest);
    streams_chain(first.push(changed[m]), rest);
    assert(first.push(all[m]).drop_last() =~= first);
    assert(first.push(changed[m]).drop_last() =~= first);
    let bundled = framed(vstd::utf8::encode_utf8(definitions)) + framed(
        vstd::utf8::encode_utf8(orchestration),
    );
    let lead = bundled + sources_stream(first) + before;
    let trail = after + sources_stream(rest);
    let one = graph_stream(definitions, orchestration, all);
    let other = graph_stream(definitions, orchestration, changed);
    assert(one =~= lead.push(x) + trail);
    assert(other =~= lead.push(y) + trail);
    one_byte_of_a_stream_shows(FNV_OFFSET, lead, x, y, trail);
    if fingerprint(definitions, orchestration, sources) == fingerprint(
        definitions,
        orchestration,
        refilled(sources, path, contents),
    ) {
        checkpoint::a_logged_span_names_one_execution(
            fnv(FNV_OFFSET, one),
            fnv(FNV_OFFSET, other),
        );
    }
}

/// Absent and empty are not the same graph: creating a listed file that was not there, with nothing
/// in it, always changes the fingerprint.
pub proof fn an_empty_file_is_not_an_absent_one(
    definitions: Seq<char>,
    orchestration: Seq<char>,
    sources: Seq<SourceView>,
    k: int,
)
    requires
        consistent(sources),
        0 <= k < sources.len(),
        sources[k].contents is None,
    ensures
        fingerprint(definitions, orchestration, sources) != fingerprint(
            definitions,
            orchestration,
            refilled(sources, sources[k].path, Some(Seq::empty())),
        ),
{
    let length = vstd::bytes::spec_u64_to_le_bytes(1);
    let before = framed(sources[k].name) + length;
    let after = framed(Seq::empty());
    let now = Some(Seq::<u8>::empty());
    assert(framed(seq![0u8]) =~= length.push(0u8));
    assert(framed(seq![1u8]) =~= length.push(1u8));
    assert(source_stream(sources[k]) =~= before.push(0u8) + after);
    assert(source_stream(SourceView { contents: now, ..sources[k] }) =~= before.push(1u8) + after);
    one_folded_byte_shows(
        definitions,
        orchestration,
        sources,
        k,
        now,
        before,
        0u8,
        1u8,
        after,
    );
}

/// A file in which one byte is replaced by another always changes the fingerprint.
pub proof fn one_replaced_byte_always_shows(
    definitions: Seq<char>,
    orchestration: Seq<char>,
    sources: Seq<SourceView>,
    k: int,
    at: int,
    byte: u8,
)
    requires
        consistent(sources),
        0 <= k < sources.len(),
        sources[k].contents is Some,
        0 <= at < sources[k].contents->0.len(),
        sources[k].contents->0[at] != byte,
    ensures
        fingerprint(definitions, orchestration, sources) != fingerprint(
            definitions,
            orchestration,
            refilled(sources, sources[k].path, Some(sources[k].contents->0.update(at, byte))),
        ),
{
    let held = sources[k].contents->0;
    let now = held.update(at, byte);
    let before = framed(sources[k].name) + framed(seq![1u8])
        + vstd::bytes::spec_u64_to_le_bytes(held.len() as u64) + held.take(at);
    let after = held.skip(at + 1);
    assert(source_stream(sources[k]) =~= before.push(held[at]) + after);
    assert(source_stream(SourceView { contents: Some(now), ..sources[k] }) =~= before.push(byte)
        + after);
    one_folded_byte_shows(
        definitions,
        orchestration,
        sources,
        k,
        Some(now),
        before,
        held[at],
        byte,
        after,
    );
}

/// A length a machine can count.
pub open spec fn countable(bytes: Seq<u8>) -> bool {
    bytes.len() <= u64::MAX
}

/// A source whose name and contents have a length a machine can count.
pub open spec fn countable_source(source: SourceView) -> bool {
    countable(source.name) && (source.contents matches Some(contents) ==> countable(contents))
}

proof fn frames_are_read_back(a: Seq<u8>, b: Seq<u8>, x: Seq<u8>, y: Seq<u8>)
    requires
        countable(a),
        countable(b),
        framed(a) + x == framed(b) + y,
    ensures
        a == b,
        x == y,
{
    vstd::bytes::lemma_auto_spec_u64_to_from_le_bytes();
    let la = vstd::bytes::spec_u64_to_le_bytes(a.len() as u64);
    let lb = vstd::bytes::spec_u64_to_le_bytes(b.len() as u64);
    let whole = framed(a) + x;
    assert(whole.take(8) =~= la);
    assert((framed(b) + y).take(8) =~= lb);
    assert(a.len() as u64 == b.len() as u64);
    assert(whole.subrange(8, 8 + a.len() as int) =~= a);
    assert((framed(b) + y).subrange(8, 8 + b.len() as int) =~= b);
    assert(whole.skip(8 + a.len() as int) =~= x);
    assert((framed(b) + y).skip(8 + b.len() as int) =~= y);
}

/// The sources from one on, as they are folded.
spec fn stream_from(sources: Seq<SourceView>) -> Seq<u8>
    decreases sources.len(),
{
    if sources.len() == 0 {
        Seq::empty()
    } else {
        source_stream(sources[0]) + stream_from(sources.drop_first())
    }
}

proof fn streams_agree(sources: Seq<SourceView>)
    ensures
        sources_stream(sources) == stream_from(sources),
    decreases sources.len(),
{
    if sources.len() == 0 {
    } else if sources.len() == 1 {
        assert(sources.drop_last() =~= Seq::empty());
        assert(sources.drop_first() =~= Seq::empty());
        assert(sources_stream(sources.drop_last()) =~= Seq::empty());
        assert(stream_from(sources.drop_first()) =~= Seq::empty());
        assert(sources_stream(sources) =~= source_stream(sources[0]));
        assert(stream_from(sources) =~= source_stream(sources[0]));
    } else {
        let front = sources.drop_last();
        let rest = sources.drop_first();
        streams_agree(front);
        streams_agree(rest);
        assert(rest.drop_last() =~= front.drop_first());
        streams_agree(rest.drop_last());
        let middle = sources_stream(rest.drop_last());
        assert(stream_from(front) == source_stream(sources[0]) + stream_from(front.drop_first()));
        assert(sources_stream(rest) == middle + source_stream(sources.last()));
        assert(sources_stream(sources) =~= source_stream(sources[0]) + middle + source_stream(
            sources.last(),
        ));
        assert(stream_from(sources) =~= source_stream(sources[0]) + middle + source_stream(
            sources.last(),
        ));
    }
}

proof fn source_is_read_back(a: SourceView, b: SourceView, x: Seq<u8>, y: Seq<u8>)
    requires
        countable_source(a),
        countable_source(b),
        source_stream(a) + x == source_stream(b) + y,
    ensures
        a.name == b.name,
        a.contents == b.contents,
        x == y,
{
    let (fa, ca) = match a.contents {
        Some(contents) => (seq![1u8], contents),
        None => (seq![0u8], Seq::<u8>::empty()),
    };
    let (fb, cb) = match b.contents {
        Some(contents) => (seq![1u8], contents),
        None => (seq![0u8], Seq::<u8>::empty()),
    };
    let ra = framed(fa) + (framed(ca) + x);
    let rb = framed(fb) + (framed(cb) + y);
    assert(source_stream(a) + x =~= framed(a.name) + ra);
    assert(source_stream(b) + y =~= framed(b.name) + rb);
    frames_are_read_back(a.name, b.name, ra, rb);
    frames_are_read_back(fa, fb, framed(ca) + x, framed(cb) + y);
    assert(fa[0] == fb[0]);
    frames_are_read_back(ca, cb, x, y);
}

proof fn sources_are_read_back(a: Seq<SourceView>, b: Seq<SourceView>)
    requires
        forall|i: int| 0 <= i < a.len() ==> countable_source(#[trigger] a[i]),
        forall|i: int| 0 <= i < b.len() ==> countable_source(#[trigger] b[i]),
        stream_from(a) == stream_from(b),
    ensures
        a.len() == b.len(),
        forall|i: int|
            0 <= i < a.len() ==> (#[trigger] a[i]).name == b[i].name && a[i].contents
                == b[i].contents,
    decreases a.len(),
{
    vstd::bytes::lemma_auto_spec_u64_to_from_le_bytes();
    if a.len() == 0 || b.len() == 0 {
        if a.len() > 0 {
            assert(stream_from(a).len() > 0);
        }
        if b.len() > 0 {
            assert(stream_from(b).len() > 0);
        }
    } else {
        let ra = a.drop_first();
        let rb = b.drop_first();
        source_is_read_back(a[0], b[0], stream_from(ra), stream_from(rb));
        assert forall|i: int| 0 <= i < ra.len() implies countable_source(#[trigger] ra[i]) by {
            assert(ra[i] == a[i + 1]);
        }
        assert forall|i: int| 0 <= i < rb.len() implies countable_source(#[trigger] rb[i]) by {
            assert(rb[i] == b[i + 1]);
        }
        sources_are_read_back(ra, rb);
        assert forall|i: int| 0 <= i < a.len() implies (#[trigger] a[i]).name == b[i].name
            && a[i].contents == b[i].contents by {
            if i > 0 {
                assert(ra[i - 1] == a[i]);
                assert(rb[i - 1] == b[i]);
            }
        }
    }
}

/// What is hashed can be read back: two graphs that fold to the same bytes have the same
/// definitions, the same orchestration, and the same files in the same order, each with the same
/// name, there or absent alike, and with the same contents. So no text moved from one file to the
/// next, and no file that is empty rather than absent, goes unseen.
pub proof fn framing_tells_graphs_apart(
    definitions_a: Seq<char>,
    orchestration_a: Seq<char>,
    a: Seq<SourceView>,
    definitions_b: Seq<char>,
    orchestration_b: Seq<char>,
    b: Seq<SourceView>,
)
    requires
        countable(vstd::utf8::encode_utf8(definitions_a)),
        countable(vstd::utf8::encode_utf8(definitions_b)),
        countable(vstd::utf8::encode_utf8(orchestration_a)),
        countable(vstd::utf8::encode_utf8(orchestration_b)),
        forall|i: int| 0 <= i < a.len() ==> countable_source(#[trigger] a[i]),
        forall|i: int| 0 <= i < b.len() ==> countable_source(#[trigger] b[i]),
        graph_stream(definitions_a, orchestration_a, a) == graph_stream(
            definitions_b,
            orchestration_b,
            b,
        ),
    ensures
        definitions_a == definitions_b,
        orchestration_a == orchestration_b,
        a.len() == b.len(),
        forall|i: int|
            0 <= i < a.len() ==> (#[trigger] a[i]).name == b[i].name && a[i].contents
                == b[i].contents,
{
    let da = vstd::utf8::encode_utf8(definitions_a);
    let db = vstd::utf8::encode_utf8(definitions_b);
    let oa = vstd::utf8::encode_utf8(orchestration_a);
    let ob = vstd::utf8::encode_utf8(orchestration_b);
    let sa = sources_stream(a);
    let sb = sources_stream(b);
    assert(graph_stream(definitions_a, orchestration_a, a) =~= framed(da) + (framed(oa) + sa));
    assert(graph_stream(definitions_b, orchestration_b, b) =~= framed(db) + (framed(ob) + sb));
    frames_are_read_back(da, db, framed(oa) + sa, framed(ob) + sb);
    frames_are_read_back(oa, ob, sa, sb);
    vstd::utf8::encode_utf8_decode_utf8(definitions_a);
    vstd::utf8::encode_utf8_decode_utf8(definitions_b);
    vstd::utf8::encode_utf8_decode_utf8(orchestration_a);
    vstd::utf8::encode_utf8_decode_utf8(orchestration_b);
    streams_agree(a);
    streams_agree(b);
    sources_are_read_back(a, b);
}

/// The hash takes one byte after another: each is put into what there is so far, and that is multiplied
/// by the prime, of which the low sixty-four bits stay.
pub proof fn the_hash_takes_one_byte_after_another(hash: u64, bytes: Seq<u8>, byte: u8)
    ensures
        fnv(hash, Seq::empty()) == hash,
        fnv(hash, bytes.push(byte)) as int == ((fnv(hash, bytes) ^ (byte as u64)) as int
            * 0x0000_0100_0000_01b3) % 0x1_0000_0000_0000_0000,
{
    assert(bytes.push(byte).drop_last() =~= bytes);
}

/// A script is a file whose name is something and then `.ts`.
pub proof fn a_script_ends_in_its_extension(stem: Seq<u8>, name: Seq<u8>)
    ensures
        stem.len() > 0 ==> script_name(stem + seq![0x2eu8, 0x74u8, 0x73u8]),
        script_name(name) ==> name.len() > 3 && name.skip(name.len() - 3) == seq![
            0x2eu8,
            0x74u8,
            0x73u8,
        ],
{
    if script_name(name) {
        assert(name.skip(name.len() - 3) =~= seq![0x2eu8, 0x74u8, 0x73u8]);
    }
}

/// What is folded of a source tells its name, whether it is there, and what it holds, each after its
/// own length.
pub proof fn a_source_is_folded_whole(source: SourceView)
    ensures
        source.contents is Some ==> source_stream(source) == framed(source.name) + framed(
            seq![1u8],
        ) + framed(source.contents->0),
        source.contents is None ==> source_stream(source) == framed(source.name) + framed(
            seq![0u8],
        ) + framed(Seq::empty()),
{
    if source.contents is Some {
        assert(source_stream(source) =~= framed(source.name) + framed(seq![1u8]) + framed(
            source.contents->0,
        ));
    } else {
        assert(source_stream(source) =~= framed(source.name) + framed(seq![0u8]) + framed(
            Seq::empty(),
        ));
    }
}

/// How paths are ordered: by the first part in which they differ, and where they differ in none, the
/// shorter first. Parts are ordered by their kind, and names by their first byte that differs, the
/// smaller and then the shorter first.
pub proof fn paths_are_ordered_by_their_first_difference(
    lead: Seq<Seq<int>>,
    a: Seq<int>,
    b: Seq<int>,
    x: Seq<Seq<int>>,
    y: Seq<Seq<int>>,
)
    requires
        a != b,
    ensures
        path_before(lead.push(a) + x, lead.push(b) + y) == part_before(a, b),
        path_before(lead, lead.push(a) + x),
        !path_before(lead.push(a) + x, lead),
{
    let p = seq![a] + x;
    let q = seq![b] + y;
    assert(lead.push(a) + x =~= lead + p);
    assert(lead.push(b) + y =~= lead + q);
    a_common_lead_keeps_order(lead, p, q);
    a_common_lead_keeps_order(lead, Seq::empty(), p);
    a_common_lead_keeps_order(lead, p, Seq::empty());
    assert(lead + Seq::<Seq<int>>::empty() =~= lead);
}

/// Parts are ordered by their first place that differs, the smaller first, and where none does, the
/// shorter first.
pub proof fn parts_are_ordered_by_their_first_difference(
    lead: Seq<int>,
    a: int,
    b: int,
    x: Seq<int>,
    y: Seq<int>,
)
    requires
        a != b,
    ensures
        part_before(lead.push(a) + x, lead.push(b) + y) <==> a < b,
        part_before(lead, lead.push(a) + x),
        !part_before(lead.push(a) + x, lead),
    decreases lead.len(),
{
    let p = lead.push(a) + x;
    let q = lead.push(b) + y;
    if lead.len() > 0 {
        let rest = lead.drop_first();
        parts_are_ordered_by_their_first_difference(rest, a, b, x, y);
        assert(p.drop_first() =~= rest.push(a) + x);
        assert(q.drop_first() =~= rest.push(b) + y);
        assert(p[0] == lead[0] && q[0] == lead[0]);
    }
}

/// A file directly below a path has that path's parts and then its own name; and is called by its own
/// name in a repository there.
pub proof fn a_file_directly_below_a_path(repo: Seq<u8>, name: Seq<u8>)
    requires
        repo.len() > 0,
        name.len() > 0,
        !name.contains(SEPARATOR),
        name != seq![0x2eu8],
        name != seq![0x2eu8, 0x2eu8],
    ensures
        parts(below(repo, name)) == parts(repo).push(
            seq![3int] + Seq::new(name.len(), |i: int| name[i] as int),
        ),
        called(repo, below(repo, name)) == name,
{
    let path = below(repo, name);
    let from = repo.len() as int + 1;
    a_path_below(repo, name);
    one_segment_to_the_end(path, from);
    assert(segment_end(path, from) == path.len());
    assert(path.subrange(from, path.len() as int) =~= name);
    let own = placed_from(path, from);
    let view = seq![3int] + Seq::new(name.len(), |i: int| name[i] as int);
    assert(placed_from(path, path.len() as int + 1) =~= Seq::empty());
    assert(own =~= seq![PlacedView { part: view, start: from, end: path.len() as int }]);
    assert(own_parts(repo, name) =~= seq![view]);
    assert(parts(path) =~= parts(repo).push(view));
    assert(name.subrange(0, name.len() as int) =~= name);
}

proof fn one_segment_to_the_end(path: Seq<u8>, from: int)
    requires
        0 <= from <= path.len(),
        forall|i: int| from <= i < path.len() ==> path[i] != SEPARATOR,
    ensures
        segment_end(path, from) == path.len(),
    decreases path.len() - from,
{
    if from < path.len() {
        one_segment_to_the_end(path, from + 1);
    }
}

/// A file outside a repository is called by its whole path, and the repository itself by nothing.
pub proof fn a_file_outside_is_called_by_its_whole_path(repo: Seq<u8>, path: Seq<u8>)
    ensures
        !parts(repo).is_prefix_of(parts(path)) ==> called(repo, path) == path,
        parts(repo) == parts(path) ==> called(repo, path).len() == 0,
{
}

/// What a path ends with adds no part where it is nothing or a single dot, and the parent where it is
/// two.
pub proof fn dots_at_the_end_of_a_path(repo: Seq<u8>)
    requires
        repo.len() > 0,
    ensures
        parts(below(repo, Seq::empty())) == parts(repo),
        parts(below(repo, seq![0x2eu8])) == parts(repo),
        parts(below(repo, seq![0x2eu8, 0x2eu8])) == parts(repo).push(seq![2int]),
{
    let from = repo.len() as int + 1;
    let none = Seq::<u8>::empty();
    let one = seq![0x2eu8];
    let two = seq![0x2eu8, 0x2eu8];
    a_path_below(repo, none);
    a_path_below(repo, one);
    a_path_below(repo, two);
    assert(own_parts(repo, none) =~= Seq::empty());
    assert(parts(repo) + own_parts(repo, none) =~= parts(repo));
    let single = below(repo, one);
    one_segment_to_the_end(single, from);
    assert(single.subrange(from, single.len() as int) =~= one);
    assert(placed_from(single, single.len() as int + 1) =~= Seq::empty());
    assert(placed_from(single, from) =~= Seq::empty());
    assert(own_parts(repo, one) =~= Seq::empty());
    assert(parts(repo) + own_parts(repo, one) =~= parts(repo));
    let double = below(repo, two);
    one_segment_to_the_end(double, from);
    assert(double.subrange(from, double.len() as int) =~= two);
    assert(two != one) by {
        assert(two.len() != one.len());
    }
    assert(placed_from(double, double.len() as int + 1) =~= Seq::empty());
    assert(placed_from(double, from) =~= seq![
        PlacedView { part: seq![2int], start: from, end: double.len() as int },
    ]);
    assert(own_parts(repo, two) =~= seq![seq![2int]]);
    assert(parts(repo) + own_parts(repo, two) =~= parts(repo).push(seq![2int]));
}

/// What a path starts with: the root where it starts with a separator, and otherwise what stands before
/// its first one, the current directory for one dot, the parent for two, and a name for anything else.
pub proof fn what_a_path_starts_with(first: Seq<u8>, rest: Seq<u8>)
    requires
        !first.contains(SEPARATOR),
    ensures
        parts(seq![SEPARATOR] + rest).len() > 0 && parts(seq![SEPARATOR] + rest)[0] == seq![0int],
        first.len() > 0 ==> parts(below(first, rest)).len() > 0,
        first == seq![0x2eu8] ==> parts(below(first, rest))[0] == seq![1int],
        first == seq![0x2eu8, 0x2eu8] ==> parts(below(first, rest))[0] == seq![2int],
        first.len() > 0 && first != seq![0x2eu8] && first != seq![0x2eu8, 0x2eu8] ==> parts(
            below(first, rest),
        )[0] == seq![3int] + Seq::new(first.len(), |i: int| first[i] as int),
{
    let rooted = seq![SEPARATOR] + rest;
    assert(rooted[0] == SEPARATOR);
    assert(placed(rooted)[0].part == seq![0int]);
    if first.len() > 0 {
        let path = below(first, rest);
        assert(path[0] == first[0]);
        assert(first.contains(first[0]));
        assert forall|i: int| 0 <= i < first.len() implies path[i] != SEPARATOR by {
            assert(path[i] == first[i]);
            assert(first.contains(first[i]));
        }
        assert(path[first.len() as int] == SEPARATOR);
        a_segment_ends_at_the_first_separator(path, 0, first.len() as int);
        assert(path.subrange(0, first.len() as int) =~= first);
        assert(seq![0x2eu8].len() != seq![0x2eu8, 0x2eu8].len());
        let view = part_of_segment(first, true)->0;
        assert(placed(path)[0].part == view);
        assert(parts(path)[0] == view);
    }
}

proof fn a_segment_ends_at_the_first_separator(path: Seq<u8>, from: int, end: int)
    requires
        0 <= from <= end < path.len(),
        path[end] == SEPARATOR,
        forall|i: int| from <= i < end ==> path[i] != SEPARATOR,
    ensures
        segment_end(path, from) == end,
    decreases end - from,
{
    if from < end {
        a_segment_ends_at_the_first_separator(path, from + 1, end);
    }
}

} // verus!
