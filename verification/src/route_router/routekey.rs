use vstd::prelude::*;

use crate::text::pairs_view;

verus! {

/// One piece of a route path.
#[derive(Debug, Clone, PartialEq, Eq, Hash)]
pub enum Segment {
    /// A `/`.
    Slash,
    /// Literal text.
    Exact(String),
    /// A named parameter, written `:name` in a route.
    Param(String),
}

/// What a [`Segment`] stands for.
pub enum SegmentView {
    Slash,
    Exact(Seq<char>),
    Param(Seq<char>),
}

impl View for Segment {
    type V = SegmentView;

    open spec fn view(&self) -> SegmentView {
        match self {
            Segment::Slash => SegmentView::Slash,
            Segment::Exact(s) => SegmentView::Exact(s@),
            Segment::Param(s) => SegmentView::Param(s@),
        }
    }
}

/// A route path split into segments.
#[derive(Debug, Clone)]
pub struct Segments(pub Vec<Segment>);

impl View for Segments {
    type V = Seq<SegmentView>;

    open spec fn view(&self) -> Seq<SegmentView> {
        self.0@.map_values(|s: Segment| s@)
    }
}

/// Parameter values found while matching: (name, value) pairs, where a
/// later pair overrides an earlier pair with the same name.
#[derive(Debug, Clone)]
pub struct Params(pub Vec<(String, String)>);

/// The map that a list of (name, value) pairs denotes; later pairs win.
pub open spec fn pairs_map(s: Seq<(Seq<char>, Seq<char>)>) -> Map<Seq<char>, Seq<char>>
    decreases s.len(),
{
    if s.len() == 0 {
        Map::empty()
    } else {
        pairs_map(s.drop_last()).insert(s.last().0, s.last().1)
    }
}

impl View for Params {
    type V = Map<Seq<char>, Seq<char>>;

    open spec fn view(&self) -> Map<Seq<char>, Seq<char>> {
        pairs_map(pairs_view(self.0@))
    }
}

/// A non-empty list of pairs denotes a non-empty map.
pub proof fn lemma_pairs_map_empty(s: Seq<(Seq<char>, Seq<char>)>)
    ensures
        (s.len() == 0) <==> (pairs_map(s).dom() =~= Set::<Seq<char>>::empty()),
{
    if s.len() > 0 {
        assert(pairs_map(s).dom().contains(s.last().0));
    }
}

/// Index of the first `/` in `s` at or after `from`, or the length of `s`.
pub open spec fn next_slash(s: Seq<char>, from: int) -> int
    decreases s.len() - from,
{
    if from >= s.len() {
        s.len() as int
    } else if s[from] == '/' {
        from
    } else {
        next_slash(s, from + 1)
    }
}

/// End of the literal segment that starts at `pos`: the segment takes the
/// character at `pos`, then the next character whatever it is, then every
/// character up to the next `/`.
pub open spec fn exact_end(s: Seq<char>, pos: int) -> int {
    if pos + 1 >= s.len() {
        s.len() as int
    } else {
        next_slash(s, pos + 2)
    }
}

/// The segments that the characters of `s` from `pos` on are read as.
pub open spec fn parse_rest(s: Seq<char>, pos: int) -> Seq<SegmentView>
    decreases s.len() - pos,
{
    if pos < 0 || pos >= s.len() {
        seq![]
    } else if s[pos] == '/' {
        seq![SegmentView::Slash] + parse_rest(s, pos + 1)
    } else if s[pos] == ':' {
        let e = next_slash(s, pos + 1);
        if e <= pos || e > s.len() {
            seq![]
        } else {
            seq![SegmentView::Param(s.subrange(pos + 1, e))] + parse_rest(s, e)
        }
    } else {
        let e = exact_end(s, pos);
        if e <= pos || e > s.len() {
            seq![]
        } else {
            seq![SegmentView::Exact(s.subrange(pos, e))] + parse_rest(s, e)
        }
    }
}

/// The segments of a route path: a leading `/` is assumed when the path
/// starts with another character.
pub open spec fn spec_segments(s: Seq<char>) -> Seq<SegmentView> {
    if s.len() > 0 && s[0] != '/' {
        seq![SegmentView::Slash] + parse_rest(s, 0)
    } else {
        parse_rest(s, 0)
    }
}

pub proof fn lemma_next_slash_bounds(s: Seq<char>, from: int)
    requires
        0 <= from,
    ensures
        from <= next_slash(s, from) || from > s.len(),
        next_slash(s, from) <= s.len(),
        next_slash(s, from) < s.len() ==> s[next_slash(s, from)] == '/',
        forall|k: int| from <= k < next_slash(s, from) ==> s[k] != '/',
    decreases s.len() - from,
{
    if from < s.len() && s[from] != '/' {
        lemma_next_slash_bounds(s, from + 1);
    }
}

/// Number of parameter segments.
pub open spec fn count_params(s: Seq<SegmentView>) -> nat
    decreases s.len(),
{
    if s.len() == 0 {
        0
    } else {
        count_params(s.drop_last()) + if s.last() is Param {
            1nat
        } else {
            0nat
        }
    }
}

/// Whether matching goes on past a route segment and a request segment.
pub open spec fn step_ok(route: SegmentView, req: SegmentView) -> bool {
    match req {
        SegmentView::Exact(r) => match route {
            SegmentView::Param(_) => true,
            SegmentView::Exact(x) => x == r,
            SegmentView::Slash => false,
        },
        SegmentView::Slash => route is Slash,
        SegmentView::Param(_) => false,
    }
}

/// The position at which matching `req` against `route` stops, from `i` on.
pub open spec fn find_stop(route: Seq<SegmentView>, req: Seq<SegmentView>, i: int) -> int
    decreases route.len() - i,
{
    if i < 0 || i >= route.len() || i >= req.len() {
        i
    } else if step_ok(route[i], req[i]) {
        find_stop(route, req, i + 1)
    } else {
        i
    }
}

/// Matching panics when it reaches a parameter segment in the request.
pub open spec fn find_panics(route: Seq<SegmentView>, req: Seq<SegmentView>) -> bool {
    let stop = find_stop(route, req, 0);
    &&& route.len() == req.len()
    &&& stop < req.len()
    &&& req[stop] is Param
}

/// The parameter values collected from the first `n` segments.
pub open spec fn params_upto(route: Seq<SegmentView>, req: Seq<SegmentView>, n: int) -> Map<
    Seq<char>,
    Seq<char>,
>
    decreases n,
{
    if n <= 0 {
        Map::empty()
    } else {
        let prev = params_upto(route, req, n - 1);
        match (route[n - 1], req[n - 1]) {
            (SegmentView::Param(k), SegmentView::Exact(v)) => prev.insert(k, v),
            _ => prev,
        }
    }
}

/// What matching `req` against `route` gives: nothing when their lengths
/// differ, otherwise the parameters met before matching stops.
pub open spec fn spec_find(route: Seq<SegmentView>, req: Seq<SegmentView>) -> Option<
    Map<Seq<char>, Seq<char>>,
> {
    if route.len() != req.len() {
        None
    } else {
        Some(params_upto(route, req, find_stop(route, req, 0)))
    }
}

pub proof fn lemma_find_stop_bounds(route: Seq<SegmentView>, req: Seq<SegmentView>, i: int)
    requires
        0 <= i <= route.len(),
        route.len() == req.len(),
    ensures
        i <= find_stop(route, req, i) <= route.len(),
        forall|k: int| i <= k < find_stop(route, req, i) ==> step_ok(route[k], req[k]),
        find_stop(route, req, i) < route.len() ==> !step_ok(
            route[find_stop(route, req, i)],
            req[find_stop(route, req, i)],
        ),
    decreases route.len() - i,
{
    if i < route.len() && step_ok(route[i], req[i]) {
        lemma_find_stop_bounds(route, req, i + 1);
    }
}

pub fn segment_eq(a: &Segment, b: &Segment) -> (r: bool)
    ensures
        r == (a@ == b@),
{
    match (a, b) {
        (Segment::Slash, Segment::Slash) => true,
        (Segment::Exact(x), Segment::Exact(y)) => x.eq(y),
        (Segment::Param(x), Segment::Param(y)) => x.eq(y),
        _ => false,
    }
}

pub fn segments_eq(a: &Segments, b: &Segments) -> (r: bool)
    ensures
        r == (a@ == b@),
{
    let n = a.0.len();
    assert(a@.len() == a.0@.len() && b@.len() == b.0@.len());
    if n != b.0.len() {
        return false;
    }
    let mut i: usize = 0;
    while i < n
        invariant
            n == a.0@.len(),
            n == b.0@.len(),
            i <= n,
            forall|j: int| 0 <= j < i ==> a@[j] == b@[j],
        decreases n - i,
    {
        if !segment_eq(&a.0[i], &b.0[i]) {
            assert(a@[i as int] != b@[i as int]);
            return false;
        }
        i = i + 1;
    }
    assert(a@ =~= b@);
    true
}

impl Params {
    pub fn new() -> (r: Params)
        ensures
            r.0@.len() == 0,
            r@ == Map::<Seq<char>, Seq<char>>::empty(),
    {
        Params(Vec::new())
    }

    /// Sets `key` to `value`.
    pub fn insert(&mut self, key: String, value: String)
        ensures
            final(self)@ == old(self)@.insert(key@, value@),
            final(self).0@.len() == old(self).0@.len() + 1,
    {
        let ghost old_pairs = pairs_view(self.0@);
        self.0.push((key, value));
        assert(pairs_view(self.0@).drop_last() =~= old_pairs);
    }

    pub fn is_empty(&self) -> (r: bool)
        ensures
            r == (self@ =~= Map::<Seq<char>, Seq<char>>::empty()),
    {
        proof {
            lemma_pairs_map_empty(pairs_view(self.0@));
        }
        self.0.len() == 0
    }
}

impl Segments {
    /// Splits a route path into segments.
    ///
    /// A path that does not start with `/` is read as if it did. `/` is a
    /// segment of its own; `:name` is a parameter that runs up to the next
    /// `/`; any other character starts literal text that takes the next
    /// character too and then runs up to the next `/`.
    pub fn from_str(value: &str) -> (r: Segments)
        ensures
            r@ == spec_segments(value@),
    {
        let n = value.unicode_len();
        let ghost s = value@;
        let mut vec: Vec<Segment> = Vec::new();
        if n > 0 && value.get_char(0) != '/' {
            vec.push(Segment::Slash);
        }
        let ghost prefix = vec@.map_values(|x: Segment| x@);
        assert(prefix + parse_rest(s, 0) =~= spec_segments(s));
        let mut pos: usize = 0;
        while pos < n
            invariant
                n == s.len(),
                s == value@,
                pos <= n,
                vec@.map_values(|x: Segment| x@) + parse_rest(s, pos as int) =~= spec_segments(s),
            decreases n - pos,
        {
            let c = value.get_char(pos);
            let ghost before = vec@.map_values(|x: Segment| x@);
            if c == '/' {
                vec.push(Segment::Slash);
                assert(vec@.map_values(|x: Segment| x@) =~= before.push(SegmentView::Slash));
                pos = pos + 1;
            } else if c == ':' {
                let mut e = pos + 1;
                while e < n && value.get_char(e) != '/'
                    invariant
                        n == s.len(),
                        s == value@,
                        pos < e <= n,
                        next_slash(s, pos + 1) == next_slash(s, e as int),
                    decreases n - e,
                {
                    e = e + 1;
                }
                let name = String::from_str(value.substring_char(pos + 1, e));
                vec.push(Segment::Param(name));
                assert(vec@.map_values(|x: Segment| x@) =~= before.push(
                    SegmentView::Param(s.subrange(pos + 1, e as int)),
                ));
                pos = e;
            } else {
                let mut e = if pos + 1 >= n {
                    n
                } else {
                    pos + 2
                };
                while e < n && value.get_char(e) != '/'
                    invariant
                        n == s.len(),
                        s == value@,
                        pos < e <= n,
                        exact_end(s, pos as int) == (if pos + 1 >= n {
                            n as int
                        } else {
                            next_slash(s, e as int)
                        }),
                        pos + 1 >= n ==> e == n,
                    decreases n - e,
                {
                    e = e + 1;
                }
                let text = String::from_str(value.substring_char(pos, e));
                vec.push(Segment::Exact(text));
                assert(vec@.map_values(|x: Segment| x@) =~= before.push(
                    SegmentView::Exact(s.subrange(pos as int, e as int)),
                ));
                pos = e;
            }
        }
        Segments(vec)
    }

    /// Number of parameter segments.
    pub fn num_params(&self) -> (r: usize)
        ensures
            r == count_params(self@),
    {
        let mut count: usize = 0;
        let mut i: usize = 0;
        while i < self.0.len()
            invariant
                i <= self.0@.len(),
                count == count_params(self@.subrange(0, i as int)),
                count <= i,
            decreases self.0@.len() - i,
        {
            proof {
                assert(self@.subrange(0, i + 1).drop_last() =~= self@.subrange(0, i as int));
            }
            if let Segment::Param(_) = &self.0[i] {
                count = count + 1;
            }
            i = i + 1;
        }
        assert(self@.subrange(0, i as int) =~= self@);
        count
    }

    /// Matches request segments `req` against this route.
    ///
    /// Gives nothing when the lengths differ. Otherwise walks both lists
    /// side by side and stops at the first pair that does not match; the
    /// result holds the parameter values met before that point.
    pub fn find(&self, req: &[Segment]) -> (r: Option<Params>)
        requires
            !find_panics(self@, req@.map_values(|x: Segment| x@)),
        ensures
            match r {
                None => spec_find(self@, req@.map_values(|x: Segment| x@)) is None,
                Some(p) => spec_find(self@, req@.map_values(|x: Segment| x@)) == Some(p@),
            },
    {
        let ghost rq = req@.map_values(|x: Segment| x@);
        let mut params = Params::new();
        if self.0.len() != req.len() {
            return None;
        }
        proof {
            lemma_find_stop_bounds(self@, rq, 0);
        }
        let n = self.0.len();
        let mut index: usize = 0;
        let mut stopped = false;
        let ghost stop = find_stop(self@, rq, 0);
        while index < n && !stopped
            invariant
                n == self.0@.len(),
                n == rq.len(),
                rq == req@.map_values(|x: Segment| x@),
                stop == find_stop(self@, rq, 0),
                stop <= n,
                index <= stop,
                stopped ==> index == stop,
                !find_panics(self@, rq),
                stop < n ==> !step_ok(self@[stop], rq[stop]),
                forall|k: int| 0 <= k < stop ==> step_ok(self@[k], rq[k]),
                params@ == params_upto(self@, rq, index as int),
            decreases n - index + (if stopped { 0int } else { 1int }),
        {
            let segment = &self.0[index];
            assert(rq[index as int] == req@[index as int]@);
            assert(self@[index as int] == self.0@[index as int]@);
            proof {
                if index < stop {
                    assert(step_ok(self@[index as int], rq[index as int]));
                }
            }
            match &req[index] {
                Segment::Param(_) => {
                    // matching never reaches a parameter in the request
                    proof {
                        assert(false);
                    }
                    return None;
                },
                Segment::Exact(segment_str_request) => {
                    if let Segment::Param(key) = segment {
                        params.insert(key.clone(), segment_str_request.clone());
                        index = index + 1;
                    } else if let Segment::Exact(segment_str_route) = segment {
                        if segment_str_request.eq(segment_str_route) {
                            index = index + 1;
                        } else {
                            stopped = true;
                        }
                    } else {
                        stopped = true;
                    }
                },
                Segment::Slash => {
                    if let Segment::Slash = segment {
                        index = index + 1;
                    } else {
                        stopped = true;
                    }
                },
            }
        }
        Some(params)
    }
}

} // verus!

verus! {

impl From<String> for Segments {
    fn from(value: String) -> (r: Self)
        ensures
            r@ == spec_segments(value@),
    {
        Segments::from_str(value.as_str())
    }
}

impl vstd::std_specs::convert::FromSpecImpl<String> for Segments {
    open spec fn obeys_from_spec() -> bool {
        false
    }

    open spec fn from_spec(v: String) -> Segments {
        vstd::pervasive::arbitrary()
    }
}

impl<'a> From<&'a str> for Segments {
    fn from(value: &'a str) -> (r: Self)
        ensures
            r@ == spec_segments(value@),
    {
        Segments::from_str(value)
    }
}

impl<'a> vstd::std_specs::convert::FromSpecImpl<&'a str> for Segments {
    open spec fn obeys_from_spec() -> bool {
        false
    }

    open spec fn from_spec(v: &'a str) -> Segments {
        vstd::pervasive::arbitrary()
    }
}

} // verus!
