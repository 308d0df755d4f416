//! Ordered lists of locations without repetition.
//!
//! The word index keeps, for each word, the locations where it occurs in the
//! order in which they were recorded. The operations here take such lists
//! apart and put them together; each says exactly which locations remain and
//! in which order.

use vstd::prelude::*;
use crate::position::{Location, LocationView};

verus! {

/// The views of a sequence of locations.
pub open spec fn location_views(s: Seq<Location>) -> Seq<LocationView> {
    s.map_values(|l: Location| l@)
}

/// The members of `s` that `r` does not hold, in the order of `s`.
pub open spec fn without(s: Seq<LocationView>, r: Seq<LocationView>) -> Seq<LocationView> {
    s.filter(|l: LocationView| !r.contains(l))
}

/// `s`, followed by the members of `more` that `s` does not hold.
pub open spec fn union_of(s: Seq<LocationView>, more: Seq<LocationView>) -> Seq<LocationView> {
    s + without(more, s)
}

/// The members of `s` that lie in another file than `uri`, in the order of `s`.
pub open spec fn outside_file(s: Seq<LocationView>, uri: Seq<char>) -> Seq<LocationView> {
    s.filter(|l: LocationView| l.uri != uri)
}

/// The location `l` after the file `old_uri` was renamed to `new_uri`.
pub open spec fn moved(l: LocationView, old_uri: Seq<char>, new_uri: Seq<char>) -> LocationView {
    if l.uri == old_uri {
        LocationView { uri: new_uri, range: l.range }
    } else {
        l
    }
}

/// `s` with every member left out that occurs earlier in `s`.
pub open spec fn first_occurrences(s: Seq<LocationView>) -> Seq<LocationView>
    decreases s.len(),
{
    if s.len() == 0 {
        s
    } else {
        let rest = first_occurrences(s.drop_last());
        if rest.contains(s.last()) {
            rest
        } else {
            rest.push(s.last())
        }
    }
}

/// The list `s` after the file `old_uri` was renamed to `new_uri`: every
/// member moved, and what then occurs twice kept once, at its first place.
pub open spec fn renamed(s: Seq<LocationView>, old_uri: Seq<char>, new_uri: Seq<char>) -> Seq<
    LocationView,
> {
    first_occurrences(s.map_values(|l: LocationView| moved(l, old_uri, new_uri)))
}

/// What a list holds after one more member was pushed.
pub proof fn lemma_push_contains(s: Seq<LocationView>, a: LocationView)
    ensures
        forall|x: LocationView| #[trigger] s.push(a).contains(x) <==> s.contains(x) || x == a,
{
    let t = s.push(a);
    assert forall|x: LocationView| #[trigger] t.contains(x) <==> s.contains(x) || x == a by {
        if s.contains(x) {
            let i = choose|i: int| 0 <= i < s.len() && s[i] == x;
            assert(t[i] == x);
        }
        if x == a {
            assert(t[s.len() as int] == x);
        }
        if t.contains(x) {
            let i = choose|i: int| 0 <= i < t.len() && t[i] == x;
            if i < s.len() {
                assert(s[i] == x);
            }
        }
    }
}

/// A filtered list holds exactly the members that pass, and repeats nothing
/// that the list did not repeat.
pub proof fn lemma_filter_members(s: Seq<LocationView>, pred: spec_fn(LocationView) -> bool)
    ensures
        forall|x: LocationView| #[trigger] s.filter(pred).contains(x) <==> s.contains(x) && pred(x),
        s.no_duplicates() ==> s.filter(pred).no_duplicates(),
    decreases s.len(),
{
    if s.len() == 0 {
        reveal(Seq::filter);
    } else {
        let front = s.drop_last();
        let last = s.last();
        let f = front.filter(pred);
        lemma_filter_members(front, pred);
        assert(s == front.push(last));
        front.lemma_filter_push(last, pred);
        lemma_push_contains(front, last);
        lemma_push_contains(f, last);
        if s.no_duplicates() {
            assert(front.no_duplicates());
            if front.contains(last) {
                let i = choose|i: int| 0 <= i < front.len() && front[i] == last;
                assert(s[i] == s[s.len() - 1]);
            }
            assert(!f.contains(last));
        }
    }
}

/// What `without` keeps.
pub proof fn lemma_without_members(s: Seq<LocationView>, r: Seq<LocationView>)
    ensures
        forall|x: LocationView| #[trigger]
            without(s, r).contains(x) <==> s.contains(x) && !r.contains(x),
        s.no_duplicates() ==> without(s, r).no_duplicates(),
{
    lemma_filter_members(s, |l: LocationView| !r.contains(l));
}

/// Taking out what a list does not hold leaves the list.
pub proof fn lemma_without_strangers(s: Seq<LocationView>, r: Seq<LocationView>)
    requires
        forall|x: LocationView| s.contains(x) ==> !r.contains(x),
    ensures
        without(s, r) == s,
    decreases s.len(),
{
    let pred = |l: LocationView| !r.contains(l);
    if s.len() == 0 {
        reveal(Seq::filter);
        assert(s.filter(pred) =~= s);
    } else {
        let front = s.drop_last();
        assert forall|x: LocationView| front.contains(x) implies !r.contains(x) by {
            let i = choose|i: int| 0 <= i < front.len() && front[i] == x;
            assert(s[i] == x);
        }
        lemma_without_strangers(front, r);
        assert(s == front.push(s.last()));
        assert(s.contains(s.last())) by {
            assert(s[s.len() - 1] == s.last());
        }
        front.lemma_filter_push(s.last(), pred);
    }
}

/// Taking out all that a list holds leaves nothing.
pub proof fn lemma_without_all(s: Seq<LocationView>, r: Seq<LocationView>)
    requires
        forall|x: LocationView| s.contains(x) ==> r.contains(x),
    ensures
        without(s, r) == Seq::<LocationView>::empty(),
{
    lemma_without_members(s, r);
    let out = without(s, r);
    if out.len() > 0 {
        assert(out.contains(out[0]));
    }
    assert(out =~= Seq::<LocationView>::empty());
}

/// Taking out of two lists put together is taking out of each.
pub proof fn lemma_without_concat(a: Seq<LocationView>, b: Seq<LocationView>, r: Seq<LocationView>)
    ensures
        without(a + b, r) == without(a, r) + without(b, r),
{
    Seq::filter_distributes_over_add(a, b, |l: LocationView| !r.contains(l));
}

/// What `outside_file` keeps.
pub proof fn lemma_outside_file_members(s: Seq<LocationView>, uri: Seq<char>)
    ensures
        forall|x: LocationView| #[trigger]
            outside_file(s, uri).contains(x) <==> s.contains(x) && x.uri != uri,
        s.no_duplicates() ==> outside_file(s, uri).no_duplicates(),
{
    lemma_filter_members(s, |l: LocationView| l.uri != uri);
}

/// What `union_of` holds.
pub proof fn lemma_union_members(s: Seq<LocationView>, more: Seq<LocationView>)
    ensures
        forall|x: LocationView| #[trigger]
            union_of(s, more).contains(x) <==> s.contains(x) || more.contains(x),
        s.no_duplicates() && more.no_duplicates() ==> union_of(s, more).no_duplicates(),
{
    let extra = without(more, s);
    lemma_without_members(more, s);
    assert forall|x: LocationView| #[trigger]
        union_of(s, more).contains(x) <==> s.contains(x) || more.contains(x) by {
        let u = union_of(s, more);
        if s.contains(x) {
            let i = choose|i: int| 0 <= i < s.len() && s[i] == x;
            assert(u[i] == x);
        }
        if extra.contains(x) {
            let i = choose|i: int| 0 <= i < extra.len() && extra[i] == x;
            assert(u[s.len() + i] == x);
        }
        if u.contains(x) {
            let i = choose|i: int| 0 <= i < u.len() && u[i] == x;
            if i < s.len() {
                assert(s[i] == x);
            } else {
                assert(extra[i - s.len()] == x);
            }
        }
    }
    if s.no_duplicates() && more.no_duplicates() {
        assert forall|i: int, j: int| 0 <= i < s.len() && 0 <= j < extra.len() implies s[i]
            != extra[j] by {
            assert(extra.contains(extra[j]));
            if s[i] == extra[j] {
                assert(s.contains(extra[j]));
            }
        }
        vstd::seq_lib::lemma_no_dup_in_concat(s, extra);
    }
}

/// `first_occurrences` holds every member of the list, each once.
pub proof fn lemma_first_occurrences_members(s: Seq<LocationView>)
    ensures
        forall|x: LocationView| #[trigger] first_occurrences(s).contains(x) <==> s.contains(x),
        first_occurrences(s).no_duplicates(),
        s.no_duplicates() ==> first_occurrences(s) == s,
    decreases s.len(),
{
    if s.len() > 0 {
        let front = s.drop_last();
        let last = s.last();
        let rest = first_occurrences(front);
        lemma_first_occurrences_members(front);
        assert(s == front.push(last));
        lemma_push_contains(front, last);
        lemma_push_contains(rest, last);
        if s.no_duplicates() {
            assert(front.no_duplicates());
            if front.contains(last) {
                let i = choose|i: int| 0 <= i < front.len() && front[i] == last;
                assert(s[i] == s[s.len() - 1]);
            }
        }
    }
}

/// What a renamed list holds: the moved members of the list, each once.
pub proof fn lemma_renamed_members(s: Seq<LocationView>, old_uri: Seq<char>, new_uri: Seq<char>)
    ensures
        forall|x: LocationView| #[trigger]
            renamed(s, old_uri, new_uri).contains(x) <==> exists|i: int|
                0 <= i < s.len() && moved(#[trigger] s[i], old_uri, new_uri) == x,
        renamed(s, old_uri, new_uri).no_duplicates(),
{
    let m = s.map_values(|l: LocationView| moved(l, old_uri, new_uri));
    lemma_first_occurrences_members(m);
    assert forall|x: LocationView| #[trigger]
        renamed(s, old_uri, new_uri).contains(x) <==> exists|i: int|
            0 <= i < s.len() && moved(#[trigger] s[i], old_uri, new_uri) == x by {
        if m.contains(x) {
            let i = choose|i: int| 0 <= i < m.len() && m[i] == x;
            assert(moved(s[i], old_uri, new_uri) == x);
        }
        if exists|i: int| 0 <= i < s.len() && moved(#[trigger] s[i], old_uri, new_uri) == x {
            let i = choose|i: int| 0 <= i < s.len() && moved(#[trigger] s[i], old_uri, new_uri) == x;
            assert(m[i] == x);
        }
    }
}

/// Whether `list` holds a location equal to `loc`.
pub fn contains_location(list: &Vec<Location>, loc: &Location) -> (b: bool)
    ensures
        b == location_views(list@).contains(loc@),
{
    let n = list.len();
    let mut i: usize = 0;
    while i < n
        invariant
            n == list.len(),
            i <= n,
            forall|k: int| 0 <= k < i ==> location_views(list@)[k] != loc@,
        decreases n - i,
    {
        if list[i].same_as(loc) {
            assert(location_views(list@)[i as int] == loc@);
            return true;
        }
        i += 1;
    }
    false
}

/// A copy of `list`.
pub fn copy_locations(list: &Vec<Location>) -> (out: Vec<Location>)
    ensures
        location_views(out@) == location_views(list@),
{
    let n = list.len();
    let mut out: Vec<Location> = Vec::new();
    let mut i: usize = 0;
    while i < n
        invariant
            n == list.len(),
            i <= n,
            location_views(out@) =~= location_views(list@).take(i as int),
        decreases n - i,
    {
        let ghost before = location_views(out@);
        let loc = list[i].duplicate();
        out.push(loc);
        assert(location_views(out@) =~= before.push(loc@));
        i += 1;
    }
    proof {
        assert(location_views(list@).take(n as int) =~= location_views(list@));
    }
    out
}

/// The members of `list` that `remove` does not hold, in the order of `list`.
pub fn locations_without(list: &Vec<Location>, remove: &Vec<Location>) -> (out: Vec<Location>)
    ensures
        location_views(out@) == without(location_views(list@), location_views(remove@)),
{
    let ghost s = location_views(list@);
    let ghost r = location_views(remove@);
    let ghost pred = |l: LocationView| !r.contains(l);
    let n = list.len();
    let mut out: Vec<Location> = Vec::new();
    let mut i: usize = 0;
    proof {
        reveal(Seq::filter);
    }
    while i < n
        invariant
            n == list.len(),
            i <= n,
            s == location_views(list@),
            r == location_views(remove@),
            pred == |l: LocationView| !r.contains(l),
            location_views(out@) =~= s.take(i as int).filter(pred),
        decreases n - i,
    {
        proof {
            assert(s.take(i as int + 1) == s.take(i as int).push(s[i as int]));
            s.take(i as int).lemma_filter_push(s[i as int], pred);
        }
        if !contains_location(remove, &list[i]) {
            out.push(list[i].duplicate());
        }
        i += 1;
    }
    proof {
        assert(s.take(n as int) == s);
    }
    out
}

/// The members of `list` that lie in another file than `uri`, in the order of
/// `list`.
pub fn locations_outside_file(list: &Vec<Location>, uri: &String) -> (out: Vec<Location>)
    ensures
        location_views(out@) == outside_file(location_views(list@), uri@),
{
    let ghost s = location_views(list@);
    let ghost pred = |l: LocationView| l.uri != uri@;
    let n = list.len();
    let mut out: Vec<Location> = Vec::new();
    let mut i: usize = 0;
    proof {
        reveal(Seq::filter);
    }
    while i < n
        invariant
            n == list.len(),
            i <= n,
            s == location_views(list@),
            pred == |l: LocationView| l.uri != uri@,
            location_views(out@) =~= s.take(i as int).filter(pred),
        decreases n - i,
    {
        proof {
            assert(s.take(i as int + 1) == s.take(i as int).push(s[i as int]));
            s.take(i as int).lemma_filter_push(s[i as int], pred);
        }
        if list[i].uri != *uri {
            out.push(list[i].duplicate());
        }
        i += 1;
    }
    proof {
        assert(s.take(n as int) == s);
    }
    out
}

/// `list`, followed by the members of `more` that `list` does not hold.
pub fn locations_union(list: &Vec<Location>, more: &Vec<Location>) -> (out: Vec<Location>)
    ensures
        location_views(out@) == union_of(location_views(list@), location_views(more@)),
{
    let mut out = copy_locations(list);
    let extra = locations_without(more, list);
    let n = extra.len();
    let mut i: usize = 0;
    while i < n
        invariant
            n == extra.len(),
            i <= n,
            location_views(out@) =~= location_views(list@) + location_views(extra@).take(i as int),
        decreases n - i,
    {
        let ghost before = location_views(out@);
        let loc = extra[i].duplicate();
        out.push(loc);
        assert(location_views(out@) =~= before.push(loc@));
        i += 1;
    }
    proof {
        assert(location_views(extra@).take(n as int) == location_views(extra@));
    }
    out
}

/// The list after the file `old_uri` was renamed to `new_uri`.
pub fn locations_renamed(list: &Vec<Location>, old_uri: &String, new_uri: &String) -> (out: Vec<Location>)
    ensures
        location_views(out@) == renamed(location_views(list@), old_uri@, new_uri@),
{
    let ghost s = location_views(list@);
    let ghost m = s.map_values(|l: LocationView| moved(l, old_uri@, new_uri@));
    let n = list.len();
    let mut out: Vec<Location> = Vec::new();
    let mut i: usize = 0;
    while i < n
        invariant
            n == list.len(),
            i <= n,
            s == location_views(list@),
            m == s.map_values(|l: LocationView| moved(l, old_uri@, new_uri@)),
            location_views(out@) =~= first_occurrences(m.take(i as int)),
        decreases n - i,
    {
        proof {
            assert(m.take(i as int + 1).drop_last() == m.take(i as int));
        }
        let loc = if list[i].uri == *old_uri {
            Location::new(new_uri.clone(), list[i].range)
        } else {
            list[i].duplicate()
        };
        assert(loc@ == m[i as int]);
        if !contains_location(&out, &loc) {
            out.push(loc);
        }
        i += 1;
    }
    proof {
        assert(m.take(n as int) == m);
    }
    out
}

} // verus!
