use std::collections::VecDeque;
use vstd::prelude::*;

use crate::route_router::routekey::{
    count_params, find_panics, segments_eq, spec_find, spec_segments, Params, Segment, SegmentView,
    Segments,
};
use crate::route_router::utils;

verus! {

/// Position of a route in a [`Router`].
#[derive(Debug, Clone, Copy)]
pub struct RouteId(pub usize);

/// Routes tried in order, with a cache from request paths that matched a
/// route without parameters to that route's position.
pub struct Router<V> {
    routes: VecDeque<(Segments, V)>,
    cache: Vec<(Segments, RouteId)>,
}

/// A route found for a request path, with its parameter values.
pub struct Match<V> {
    pub value: V,
    pub params: Params,
}

/// First position at or after `from` of a route with as many segments as `q`.
pub open spec fn first_same_len<V>(routes: Seq<(Seq<SegmentView>, V)>, q: Seq<SegmentView>, from: int) -> Option<int>
    decreases routes.len() - from,
{
    if from < 0 || from >= routes.len() {
        None
    } else if routes[from].0.len() == q.len() {
        Some(from)
    } else {
        first_same_len(routes, q, from + 1)
    }
}

/// The route position cached for `q`, if any (the first entry wins).
pub open spec fn cache_lookup(cache: Seq<(Seq<SegmentView>, usize)>, q: Seq<SegmentView>, from: int) -> Option<usize>
    decreases cache.len() - from,
{
    if from < 0 || from >= cache.len() {
        None
    } else if cache[from].0 == q {
        Some(cache[from].1)
    } else {
        cache_lookup(cache, q, from + 1)
    }
}

/// First position at or after `from` of a route with at most `priority` parameters.
pub open spec fn first_at_most<V>(routes: Seq<(Seq<SegmentView>, V)>, priority: nat, from: int) -> Option<int>
    decreases routes.len() - from,
{
    if from < 0 || from >= routes.len() {
        None
    } else if count_params(routes[from].0) <= priority {
        Some(from)
    } else {
        first_at_most(routes, priority, from + 1)
    }
}

/// Where [`Router::at`] puts a route with `priority` parameters: before the
/// first route with at most as many parameters, and at the front when there
/// is none.
pub open spec fn insert_position<V>(routes: Seq<(Seq<SegmentView>, V)>, priority: nat) -> int {
    match first_at_most(routes, priority, 0) {
        Some(i) => i,
        None => 0,
    }
}

proof fn lemma_first_same_len<V>(routes: Seq<(Seq<SegmentView>, V)>, q: Seq<SegmentView>, from: int)
    requires
        0 <= from <= routes.len(),
    ensures
        match first_same_len(routes, q, from) {
            Some(i) => from <= i < routes.len() && routes[i].0.len() == q.len() && forall|k: int|
                from <= k < i ==> routes[k].0.len() != q.len(),
            None => forall|k: int| from <= k < routes.len() ==> routes[k].0.len() != q.len(),
        },
    decreases routes.len() - from,
{
    if from < routes.len() && routes[from].0.len() != q.len() {
        lemma_first_same_len(routes, q, from + 1);
    }
}

proof fn lemma_cache_lookup(cache: Seq<(Seq<SegmentView>, usize)>, q: Seq<SegmentView>, from: int)
    requires
        0 <= from <= cache.len(),
    ensures
        match cache_lookup(cache, q, from) {
            Some(c) => exists|i: int| from <= i < cache.len() && cache[i].0 == q && cache[i].1 == c,
            None => forall|k: int| from <= k < cache.len() ==> cache[k].0 != q,
        },
    decreases cache.len() - from,
{
    if from < cache.len() && cache[from].0 != q {
        lemma_cache_lookup(cache, q, from + 1);
    }
}

proof fn lemma_first_at_most<V>(routes: Seq<(Seq<SegmentView>, V)>, priority: nat, from: int)
    requires
        0 <= from <= routes.len(),
    ensures
        match first_at_most(routes, priority, from) {
            Some(i) => from <= i < routes.len() && count_params(routes[i].0) <= priority && forall|k: int|
                from <= k < i ==> count_params(routes[k].0) > priority,
            None => forall|k: int| from <= k < routes.len() ==> count_params(routes[k].0) > priority,
        },
    decreases routes.len() - from,
{
    if from < routes.len() && count_params(routes[from].0) > priority {
        lemma_first_at_most(routes, priority, from + 1);
    }
}

impl<V> Default for Router<V> {
    /// A router with no routes and an empty cache.
    fn default() -> (r: Router<V>)
        ensures
            r.wf(),
            r.routes_view() == Seq::<(Seq<SegmentView>, V)>::empty(),
            r.cache_view() == Seq::<(Seq<SegmentView>, usize)>::empty(),
    {
        let r = Router { routes: VecDeque::new(), cache: Vec::new() };
        assert(r.routes_view() =~= Seq::<(Seq<SegmentView>, V)>::empty());
        assert(r.cache_view() =~= Seq::<(Seq<SegmentView>, usize)>::empty());
        r
    }
}

proof fn lemma_cache_lookup_push(
    cache: Seq<(Seq<SegmentView>, usize)>,
    e: (Seq<SegmentView>, usize),
    q: Seq<SegmentView>,
    from: int,
)
    requires
        0 <= from <= cache.len(),
        cache_lookup(cache, q, from) is None,
    ensures
        cache_lookup(cache.push(e), q, from) == (if e.0 == q {
            Some(e.1)
        } else {
            None
        }),
    decreases cache.len() - from,
{
    if from < cache.len() {
        assert(cache.push(e)[from] == cache[from]);
        lemma_cache_lookup_push(cache, e, q, from + 1);
    } else {
        assert(cache.push(e)[from] == e);
        assert(cache_lookup(cache.push(e), q, from + 1) is None);
    }
}

/// Looking the same path up twice in a row gives the same answer both
/// times: the same route and the same parameters.
pub proof fn lemma_lookup_repeats<V>(first: Router<V>, second: Router<V>, q: Seq<SegmentView>)
    requires
        first.wf(),
        second.routes_view() == first.routes_view(),
        second.cache_view() == first.spec_cache_after(q),
    ensures
        second.spec_lookup(q) == first.spec_lookup(q),
        second.spec_lookup_params(q) == first.spec_lookup_params(q),
{
    let cv = first.cache_view();
    let rv = first.routes_view();
    if cache_lookup(cv, q, 0) is None {
        if let Some(i) = first_same_len(rv, q, 0) {
            if spec_find(rv[i].0, q).unwrap() =~= Map::empty() {
                lemma_cache_lookup_push(cv, (q, i as usize), q, 0);
                lemma_first_same_len(rv, q, 0);
            }
        }
    }
}

/// A route added for a path is what a lookup of that path answers with,
/// when no route of the same length was there before and the path is not
/// cached.
pub proof fn lemma_added_route_is_found<V>(before: Router<V>, after: Router<V>, path: Seq<char>, value: V)
    requires
        before.wf(),
        after.cache_view() == before.cache_view(),
        after.routes_view() == before.routes_view().insert(
            insert_position(before.routes_view(), count_params(spec_segments(path))),
            (spec_segments(path), value),
        ),
        cache_lookup(before.cache_view(), spec_segments(path), 0) is None,
        forall|k: int|
            0 <= k < before.routes_view().len() ==> (#[trigger] before.routes_view()[k]).0.len()
                != spec_segments(path).len(),
    ensures
        after.spec_lookup(spec_segments(path)) == Some(
            insert_position(before.routes_view(), count_params(spec_segments(path))),
        ),
        after.routes_view()[insert_position(before.routes_view(), count_params(spec_segments(path)))].1 == value,
{
    let q = spec_segments(path);
    let rv = before.routes_view();
    let p = insert_position(rv, count_params(q));
    lemma_first_at_most(rv, count_params(q), 0);
    assert(0 <= p <= rv.len());
    let av = after.routes_view();
    lemma_first_same_len(av, q, 0);
    assert(av[p] == (q, value));
    assert forall|k: int| 0 <= k < p implies av[k].0.len() != q.len() by {
        assert(av[k] == rv[k]);
    }
    match first_same_len(av, q, 0) {
        Some(i) => {
            if i > p {
                assert(av[p].0.len() == q.len());
            }
        },
        None => {
            assert(av[p].0.len() == q.len());
        },
    }
}

proof fn lemma_first_same_len_keys<V>(
    a: Seq<(Seq<SegmentView>, V)>,
    b: Seq<(Seq<SegmentView>, V)>,
    q: Seq<SegmentView>,
    from: int,
)
    requires
        a.len() == b.len(),
        forall|k: int| 0 <= k < a.len() ==> #[trigger] a[k].0 == b[k].0,
    ensures
        first_same_len(a, q, from) == first_same_len(b, q, from),
    decreases a.len() - from,
{
    if 0 <= from < a.len() {
        assert(a[from].0 == b[from].0);
        lemma_first_same_len_keys(a, b, q, from + 1);
    }
}

/// A value written through [`Router::at_mut`] for a path is what the next
/// lookup of that path gives.
pub proof fn lemma_written_value_is_found<V>(first: Router<V>, second: Router<V>, q: Seq<SegmentView>, value: V)
    requires
        first.wf(),
        first.spec_lookup(q) is Some,
        second.cache_view() == first.spec_cache_after(q),
        second.routes_view() == first.routes_view().update(
            first.spec_lookup(q)->0,
            (first.routes_view()[first.spec_lookup(q)->0].0, value),
        ),
    ensures
        second.spec_lookup(q) == first.spec_lookup(q),
        second.routes_view()[second.spec_lookup(q)->0].1 == value,
{
    let cv = first.cache_view();
    let rv = first.routes_view();
    let i = first.spec_lookup(q)->0;
    if cache_lookup(cv, q, 0) is Some {
        lemma_cache_lookup(cv, q, 0);
    } else {
        lemma_first_same_len(rv, q, 0);
        let sv = second.routes_view();
        assert forall|k: int| 0 <= k < rv.len() implies #[trigger] rv[k].0 == sv[k].0 by {
            if k == i {
            } else {
                assert(sv[k] == rv[k]);
            }
        }
        lemma_first_same_len_keys(rv, sv, q, 0);
        if spec_find(rv[i].0, q).unwrap() =~= Map::empty() {
            lemma_cache_lookup_push(cv, (q, i as usize), q, 0);
        }
    }
}

/// `VecDeque`'s `IndexMut`: a mutable reference to item `i`; the item
/// written through it is what the deque then holds at `i`.
#[verifier::external_body]
fn deque_index_mut<T>(v: &mut VecDeque<T>, i: usize) -> (r: &mut T)
    requires
        i < old(v)@.len(),
    ensures
        *r == old(v)@[i as int],
        final(v)@ == old(v)@.update(i as int, *final(r)),
{
    &mut v[i]
}

impl<V> Router<V> {
    /// The routes, in the order they are tried.
    pub closed spec fn routes_view(&self) -> Seq<(Seq<SegmentView>, V)> {
        self.routes@.map_values(|r: (Segments, V)| (r.0@, r.1))
    }

    /// The cache: request segments and the route position they map to.
    pub closed spec fn cache_view(&self) -> Seq<(Seq<SegmentView>, usize)> {
        self.cache@.map_values(|c: (Segments, RouteId)| (c.0@, c.1.0))
    }

    /// Every cached position names a route.
    pub open spec fn wf(&self) -> bool {
        &&& self.routes_view().len() <= usize::MAX
        &&& forall|i: int|
            0 <= i < self.cache_view().len() ==> #[trigger] self.cache_view()[i].1
                < self.routes_view().len()
    }

    /// The route that a lookup of `q` answers with: the cached one, or else
    /// the first route with as many segments as `q`.
    pub open spec fn spec_lookup(&self, q: Seq<SegmentView>) -> Option<int> {
        match cache_lookup(self.cache_view(), q, 0) {
            Some(c) => Some(c as int),
            None => first_same_len(self.routes_view(), q, 0),
        }
    }

    /// The parameters that a lookup of `q` answers with.
    pub open spec fn spec_lookup_params(&self, q: Seq<SegmentView>) -> Map<Seq<char>, Seq<char>> {
        match cache_lookup(self.cache_view(), q, 0) {
            Some(c) => Map::empty(),
            None => match first_same_len(self.routes_view(), q, 0) {
                Some(i) => spec_find(self.routes_view()[i].0, q).unwrap(),
                None => Map::empty(),
            },
        }
    }

    /// The cache after a lookup of `q`: a found route is remembered when it
    /// matched without parameters.
    pub open spec fn spec_cache_after(&self, q: Seq<SegmentView>) -> Seq<(Seq<SegmentView>, usize)> {
        match cache_lookup(self.cache_view(), q, 0) {
            Some(c) => self.cache_view(),
            None => match first_same_len(self.routes_view(), q, 0) {
                Some(i) => if spec_find(self.routes_view()[i].0, q).unwrap() =~= Map::empty() {
                    self.cache_view().push((q, i as usize))
                } else {
                    self.cache_view()
                },
                None => self.cache_view(),
            },
        }
    }

    /// A lookup of `q` panics when the route it tries reaches a parameter
    /// segment in `q`.
    pub open spec fn lookup_panics(&self, q: Seq<SegmentView>) -> bool {
        &&& cache_lookup(self.cache_view(), q, 0) is None
        &&& match first_same_len(self.routes_view(), q, 0) {
            Some(i) => find_panics(self.routes_view()[i].0, q),
            None => false,
        }
    }

    /// Adds a route. Routes with more parameters are tried first: the new
    /// route goes before the first route with at most as many parameters.
    pub fn at(&mut self, route: &str, handler: V)
        requires
            old(self).wf(),
        ensures
            final(self).wf(),
            final(self).cache_view() == old(self).cache_view(),
            final(self).routes_view() == old(self).routes_view().insert(
                insert_position(old(self).routes_view(), count_params(spec_segments(route@))),
                (spec_segments(route@), handler),
            ),
    {
        let segments = Segments::from_str(route);
        let priority = segments.num_params();
        let ghost rv = self.routes_view();
        let n = self.routes.len();
        let mut i: usize = 0;
        let mut found: Option<usize> = None;
        proof {
            lemma_first_at_most(rv, priority as nat, 0);
        }
        while i < n && found.is_none()
            invariant
                n == self.routes@.len(),
                rv == self.routes_view(),
                i <= n,
                found is None ==> first_at_most(rv, priority as nat, 0) == first_at_most(rv, priority as nat, i as int),
                found matches Some(f) ==> first_at_most(rv, priority as nat, 0) == Some(f as int) && f < n,
            decreases n - i + (if found is None { 1int } else { 0int }),
        {
            assert(rv[i as int].0 == self.routes@[i as int].0@);
            if self.routes[i].0.num_params() <= priority {
                found = Some(i);
            } else {
                i = i + 1;
            }
        }
        let index = match found {
            Some(f) => f,
            None => 0,
        };
        proof {
            if found is None {
                assert(first_at_most(rv, priority as nat, n as int) is None);
            }
        }
        let ghost entry = (segments@, handler);
        utils::insert_at(&mut self.routes, index, (segments, handler));
        // the deque's length is a usize, which bounds the number of routes
        let count = self.routes.len();
        assert(count == self.routes@.len());
        assert(self.routes_view() =~= rv.insert(index as int, entry));
        assert(self.cache_view() == old(self).cache_view());
    }

    /// Looks a request path up.
    ///
    /// A path cached by an earlier lookup gives its cached route with no
    /// parameters. Otherwise the first route with as many segments as the
    /// path is taken, with the parameters that matching gives; when it has
    /// no parameters the path is cached.
    pub fn find(&mut self, route: &str) -> (r: Option<Match<&V>>)
        requires
            old(self).wf(),
            !old(self).lookup_panics(spec_segments(route@)),
        ensures
            final(self).wf(),
            final(self).routes_view() == old(self).routes_view(),
            final(self).cache_view() == old(self).spec_cache_after(spec_segments(route@)),
            match old(self).spec_lookup(spec_segments(route@)) {
                None => r is None,
                Some(i) => r matches Some(m) && *m.value == old(self).routes_view()[i].1
                    && m.params@ == old(self).spec_lookup_params(spec_segments(route@)),
            },
    {
        let segments = Segments::from_str(route);
        let ghost q = segments@;
        let ghost rv = self.routes_view();
        let ghost cv = self.cache_view();
        // the cache
        let cn = self.cache.len();
        let mut c: usize = 0;
        proof {
            lemma_cache_lookup(cv, q, 0);
        }
        while c < cn
            invariant
                cn == self.cache@.len(),
                cv == self.cache_view(),
                rv == self.routes_view(),
                self.wf(),
                c <= cn,
                q == segments@,
                q == spec_segments(route@),
                cache_lookup(cv, q, 0) == cache_lookup(cv, q, c as int),
                !old(self).lookup_panics(q),
                old(self).routes_view() == rv,
                old(self).cache_view() == cv,
            decreases cn - c,
        {
            assert(cv[c as int].0 == self.cache@[c as int].0@);
            if segments_eq(&self.cache[c].0, &segments) {
                let route_index = self.cache[c].1.0;
                assert(cv[c as int].1 == route_index);
                assert(route_index < rv.len());
                let value = &self.routes[route_index].1;
                assert(*value == rv[route_index as int].1);
                assert(cache_lookup(cv, q, c as int) == Some(route_index));
                return Some(Match { value, params: Params::new() });
            }
            c = c + 1;
        }
        assert(cache_lookup(cv, q, 0) is None);
        // the routes, in order
        let n = self.routes.len();
        let mut index: usize = 0;
        proof {
            lemma_first_same_len(rv, q, 0);
        }
        while index < n
            invariant
                n == self.routes@.len(),
                rv == self.routes_view(),
                cv == self.cache_view(),
                self.wf(),
                index <= n,
                q == segments@,
                q == spec_segments(route@),
                cache_lookup(cv, q, 0) is None,
                first_same_len(rv, q, 0) == first_same_len(rv, q, index as int),
                !old(self).lookup_panics(q),
                old(self).routes_view() == rv,
                old(self).cache_view() == cv,
            decreases n - index,
        {
            assert(rv[index as int].0 == self.routes@[index as int].0@);
            let key = &self.routes[index].0;
            if key.0.len() == segments.0.len() {
                assert(rv[index as int].0.len() == q.len());
                assert(first_same_len(rv, q, index as int) == Some(index as int));
                let found = key.find(&segments.0);
                assert(segments.0@.map_values(|x: Segment| x@) == q);
                match found {
                    Some(params) => {
                        if params.is_empty() {
                            self.cache.push((segments, RouteId(index)));
                            assert(self.cache_view() =~= cv.push((q, index)));
                        }
                        let value = &self.routes[index].1;
                        return Some(Match { value, params });
                    },
                    None => {
                        return None;
                    },
                }
            }
            index = index + 1;
        }
        None
    }

    /// Like [`Router::find`], but the route's value can be changed through
    /// the result.
    pub fn at_mut(&mut self, route: &str) -> (r: Option<Match<&mut V>>)
        requires
            old(self).wf(),
            !old(self).lookup_panics(spec_segments(route@)),
        ensures
            final(self).wf(),
            final(self).cache_view() == old(self).spec_cache_after(spec_segments(route@)),
            match old(self).spec_lookup(spec_segments(route@)) {
                None => r is None && final(self).routes_view() == old(self).routes_view(),
                Some(i) => r matches Some(m) && *m.value == old(self).routes_view()[i].1
                    && m.params@ == old(self).spec_lookup_params(spec_segments(route@))
                    && final(self).routes_view() == old(self).routes_view().update(
                    i,
                    (old(self).routes_view()[i].0, *final(m.value)),
                ),
            },
    {
        let segments = Segments::from_str(route);
        let ghost q = segments@;
        let ghost rv = self.routes_view();
        let ghost cv = self.cache_view();
        let cn = self.cache.len();
        let mut c: usize = 0;
        proof {
            lemma_cache_lookup(cv, q, 0);
        }
        let mut hit: Option<usize> = None;
        while c < cn && hit.is_none()
            invariant
                cn == self.cache@.len(),
                cv == self.cache_view(),
                rv == self.routes_view(),
                self.wf(),
                c <= cn,
                q == segments@,
                q == spec_segments(route@),
                hit is None ==> cache_lookup(cv, q, 0) == cache_lookup(cv, q, c as int),
                hit matches Some(h) ==> cache_lookup(cv, q, 0) == Some(h) && h < rv.len(),
                old(self).routes_view() == rv,
                old(self).cache_view() == cv,
            decreases cn - c + (if hit is None { 1int } else { 0int }),
        {
            assert(cv[c as int].0 == self.cache@[c as int].0@);
            if segments_eq(&self.cache[c].0, &segments) {
                hit = Some(self.cache[c].1.0);
                assert(cv[c as int].1 < rv.len());
            } else {
                c = c + 1;
            }
        }
        if let Some(route_index) = hit {
            let entry = deque_index_mut(&mut self.routes, route_index);
            let value = &mut entry.1;
            return Some(Match { value, params: Params::new() });
        }
        assert(cache_lookup(cv, q, 0) is None);
        let n = self.routes.len();
        let mut index: usize = 0;
        proof {
            lemma_first_same_len(rv, q, 0);
        }
        while index < n
            invariant
                n == self.routes@.len(),
                rv == self.routes_view(),
                cv == self.cache_view(),
                self.wf(),
                index <= n,
                q == segments@,
                q == spec_segments(route@),
                cache_lookup(cv, q, 0) is None,
                first_same_len(rv, q, 0) == first_same_len(rv, q, index as int),
                !old(self).lookup_panics(q),
                old(self).routes_view() == rv,
                old(self).cache_view() == cv,
            decreases n - index,
        {
            assert(rv[index as int].0 == self.routes@[index as int].0@);
            if self.routes[index].0.0.len() == segments.0.len() {
                assert(rv[index as int].0.len() == q.len());
                assert(first_same_len(rv, q, index as int) == Some(index as int));
                let found = self.routes[index].0.find(&segments.0);
                assert(segments.0@.map_values(|x: Segment| x@) == q);
                match found {
                    Some(params) => {
                        if params.is_empty() {
                            self.cache.push((segments, RouteId(index)));
                            assert(self.cache_view() =~= cv.push((q, index)));
                        }
                        let entry = deque_index_mut(&mut self.routes, index);
                        let value = &mut entry.1;
                        return Some(Match { value, params });
                    },
                    None => {
                        return None;
                    },
                }
            }
            index = index + 1;
        }
        None
    }
}

} // verus!
