use vstd::prelude::*;

use crate::route_http::method::HttpMethod;
use crate::text::str_eq;
use crate::route_router::routekey::{next_slash, lemma_next_slash_bounds, Params};

pub mod routekey;
pub mod router;
pub mod node;
pub mod utils;

verus! {

/// A handler registered for a method and a path.
#[derive(Clone, Debug)]
pub struct Route<H> {
    pub handler: H,
}

impl<H> Route<H> {
    pub fn new(handler: H) -> (r: Self)
        ensures
            r.handler == handler,
    {
        Route { handler }
    }
}

/// Where a [`Router`] is mounted: paths are matched after this prefix.
#[derive(Debug, Clone)]
pub enum RouterMount {
    Root,
    Path(String),
}

impl RouterMount {
    /// The prefix: `/` for the root.
    pub open spec fn spec_str(&self) -> Seq<char> {
        match self {
            RouterMount::Root => "/"@,
            RouterMount::Path(p) => p@,
        }
    }

    pub fn as_str<'a>(&'a self) -> (r: &'a str)
        ensures
            r@ == self.spec_str(),
    {
        match self {
            RouterMount::Root => "/",
            RouterMount::Path(path) => path.as_str(),
        }
    }
}

/// One node of the routing tree, stored in a list of nodes; children are
/// named by their position in that list.
#[derive(Debug)]
struct RouteNode<H> {
    /// The name of the path variable that this node matches, for a node
    /// reached through a variable segment.
    path_variable_name: Option<String>,
    /// The routes that end at this node, at most one per method.
    routes: Vec<(HttpMethod, Route<H>)>,
    /// Children reached through a literal segment.
    statics: Vec<(String, usize)>,
    /// The child reached through a variable segment.
    variable: Option<usize>,
}

/// What a routing-tree node holds.
pub struct NodeView<H> {
    pub var_name: Option<Seq<char>>,
    pub routes: Seq<(HttpMethod, Route<H>)>,
    pub statics: Seq<(Seq<char>, int)>,
    pub variable: Option<int>,
}

impl<H> RouteNode<H> {
    spec fn node_view(&self) -> NodeView<H> {
        NodeView {
            var_name: match self.path_variable_name {
                Some(s) => Some(s@),
                None => None,
            },
            routes: self.routes@,
            statics: self.statics@.map_values(|e: (String, usize)| (e.0@, e.1 as int)),
            variable: match self.variable {
                Some(c) => Some(c as int),
                None => None,
            },
        }
    }
}

/// A router over a tree of path segments. Each segment of a registered
/// path is literal text or `{name}`, a variable that matches any text.
#[derive(Debug)]
pub struct Router<H> {
    mount: RouterMount,
    nodes: Vec<RouteNode<H>>,
}

/// No route answers the request.
#[derive(Debug, Clone, Copy, PartialEq, Eq, Structural)]
pub struct NoRouteFound;

/// The route that answers a request, with the values of its path variables.
#[derive(Debug)]
pub struct RouteFound<'a, H> {
    pub route: &'a Route<H>,
    pub variables: Params,
}

/// The parts of `s` from `pos` on, split at every `/` (as `str::split`).
pub open spec fn split_from(s: Seq<char>, pos: int) -> Seq<Seq<char>>
    decreases s.len() - pos,
{
    let e = next_slash(s, pos);
    if pos < 0 || pos > s.len() {
        seq![]
    } else if e >= s.len() || e < pos {
        seq![s.subrange(pos, s.len() as int)]
    } else {
        seq![s.subrange(pos, e)] + split_from(s, e + 1)
    }
}

/// A path part written `{name}` is a variable.
pub open spec fn is_variable_part(p: Seq<char>) -> bool {
    p.len() >= 2 && p[0] == '{' && p[p.len() - 1] == '}'
}

/// The name of a variable part: what stands between the braces.
pub open spec fn variable_name(p: Seq<char>) -> Seq<char> {
    p.subrange(1, p.len() - 1)
}

/// First child reached through literal `p`.
pub open spec fn find_static(statics: Seq<(Seq<char>, int)>, p: Seq<char>, from: int) -> Option<int>
    decreases statics.len() - from,
{
    if from < 0 || from >= statics.len() {
        None
    } else if statics[from].0 == p {
        Some(statics[from].1)
    } else {
        find_static(statics, p, from + 1)
    }
}

/// Position of the route for method `m`.
pub open spec fn find_method<H>(routes: Seq<(HttpMethod, Route<H>)>, m: HttpMethod, from: int) -> Option<int>
    decreases routes.len() - from,
{
    if from < 0 || from >= routes.len() {
        None
    } else if routes[from].0 == m {
        Some(from)
    } else {
        find_method(routes, m, from + 1)
    }
}

/// The routes after setting the route for `m` to `r`.
pub open spec fn routes_set<H>(routes: Seq<(HttpMethod, Route<H>)>, m: HttpMethod, r: Route<H>) -> Seq<(HttpMethod, Route<H>)> {
    match find_method(routes, m, 0) {
        Some(i) => routes.update(i, (m, r)),
        None => routes.push((m, r)),
    }
}

pub open spec fn fresh_node<H>(var_name: Option<Seq<char>>) -> NodeView<H> {
    NodeView { var_name, routes: seq![], statics: seq![], variable: None }
}

/// The tree after registering `r` for `m` at the path `parts` below node `cur`.
pub open spec fn spec_insert<H>(ns: Seq<NodeView<H>>, cur: int, parts: Seq<Seq<char>>, m: HttpMethod, r: Route<H>) -> Seq<NodeView<H>>
    decreases parts.len(),
{
    if parts.len() == 0 {
        ns.update(cur, NodeView { routes: routes_set(ns[cur].routes, m, r), ..ns[cur] })
    } else {
        let p = parts[0];
        let rest = parts.drop_first();
        if is_variable_part(p) {
            match ns[cur].variable {
                Some(c) => spec_insert(ns, c, rest, m, r),
                None => {
                    let c = ns.len() as int;
                    let ns1 = ns.update(cur, NodeView { variable: Some(c), ..ns[cur] }).push(
                        fresh_node(Some(variable_name(p))),
                    );
                    spec_insert(ns1, c, rest, m, r)
                },
            }
        } else {
            match find_static(ns[cur].statics, p, 0) {
                Some(c) => spec_insert(ns, c, rest, m, r),
                None => {
                    let c = ns.len() as int;
                    let ns1 = ns.update(cur, NodeView { statics: ns[cur].statics.push((p, c)), ..ns[cur] }).push(
                        fresh_node(None),
                    );
                    spec_insert(ns1, c, rest, m, r)
                },
            }
        }
    }
}

/// Walks `parts` down from `cur`: a literal child is preferred, and a
/// variable child takes the part as the value of its variable.
pub open spec fn spec_walk<H>(ns: Seq<NodeView<H>>, cur: int, parts: Seq<Seq<char>>, vars: Map<Seq<char>, Seq<char>>) -> Option<(int, Map<Seq<char>, Seq<char>>)>
    decreases parts.len(),
{
    if parts.len() == 0 {
        Some((cur, vars))
    } else {
        let p = parts[0];
        let rest = parts.drop_first();
        match find_static(ns[cur].statics, p, 0) {
            Some(c) => spec_walk(ns, c, rest, vars),
            None => match ns[cur].variable {
                Some(c) => spec_walk(ns, c, rest, vars.insert(ns[c].var_name.unwrap(), p)),
                None => None,
            },
        }
    }
}

/// Edges go to later nodes, and a node reached through a variable has a
/// variable name.
pub open spec fn tree_wf<H>(ns: Seq<NodeView<H>>) -> bool {
    &&& ns.len() >= 1
    &&& forall|i: int, j: int|
        0 <= i < ns.len() && 0 <= j < ns[i].statics.len() ==> i < #[trigger] ns[i].statics[j].1 < ns.len()
    &&& forall|i: int|
        0 <= i < ns.len() && (#[trigger] ns[i].variable) is Some ==> i < ns[i].variable->0 < ns.len()
            && ns[ns[i].variable->0].var_name is Some
}

proof fn lemma_find_static(statics: Seq<(Seq<char>, int)>, p: Seq<char>, from: int)
    requires
        0 <= from <= statics.len(),
    ensures
        match find_static(statics, p, from) {
            Some(c) => exists|k: int| from <= k < statics.len() && statics[k].1 == c && statics[k].0 == p
                && forall|k2: int| from <= k2 < k ==> statics[k2].0 != p,
            None => forall|k: int| from <= k < statics.len() ==> statics[k].0 != p,
        },
    decreases statics.len() - from,
{
    if from < statics.len() && statics[from].0 != p {
        lemma_find_static(statics, p, from + 1);
    }
}

impl<H> Router<H> {
    /// The nodes of the tree; the first is the top.
    pub closed spec fn tree(&self) -> Seq<NodeView<H>> {
        self.nodes@.map_values(|n: RouteNode<H>| n.node_view())
    }

    pub closed spec fn mount_view(&self) -> RouterMount {
        self.mount
    }

    pub open spec fn wf(&self) -> bool {
        tree_wf(self.tree())
    }

    /// What a request for `m` at `path` is answered with: the node reached
    /// and the variable values, and the position of the route there.
    pub open spec fn spec_match(&self, m: HttpMethod, path: Seq<char>) -> Option<(int, int, Map<Seq<char>, Seq<char>>)> {
        let mount = self.mount_view().spec_str();
        if path.len() < mount.len() || path.subrange(0, mount.len() as int) != mount {
            None
        } else {
            match spec_walk(self.tree(), 0, split_from(path, mount.len() as int), Map::empty()) {
                None => None,
                Some((t, vars)) => match find_method(self.tree()[t].routes, m, 0) {
                    Some(ri) => Some((t, ri, vars)),
                    None => None,
                },
            }
        }
    }

    fn empty_top() -> (r: Vec<RouteNode<H>>)
        ensures
            r@.len() == 1,
            r@[0].node_view() == fresh_node::<H>(None),
    {
        let mut v = Vec::new();
        v.push(RouteNode { path_variable_name: None, routes: Vec::new(), statics: Vec::new(), variable: None });
        assert(v@[0].node_view().statics =~= Seq::<(Seq<char>, int)>::empty());
        assert(v@[0].node_view().routes =~= Seq::<(HttpMethod, Route<H>)>::empty());
        v
    }

    /// A router for paths under `/`.
    pub fn mount_root() -> (r: Self)
        ensures
            r.wf(),
            r.mount_view() == RouterMount::Root,
            r.tree() == seq![fresh_node::<H>(None)],
    {
        let r = Router { mount: RouterMount::Root, nodes: Self::empty_top() };
        assert(r.tree() =~= seq![fresh_node::<H>(None)]);
        r
    }

    /// A router for paths under `mount_path`.
    pub fn mount_at(mount_path: String) -> (r: Self)
        ensures
            r.wf(),
            r.mount_view() == RouterMount::Path(mount_path),
            r.tree() == seq![fresh_node::<H>(None)],
    {
        let r = Router { mount: RouterMount::Path(mount_path), nodes: Self::empty_top() };
        assert(r.tree() =~= seq![fresh_node::<H>(None)]);
        r
    }

    /// Finds the route for `method` at `route`.
    ///
    /// The mount prefix is taken off and the rest is split at every `/`.
    /// Each part goes down the tree: to the child for that literal text when
    /// there is one, otherwise to the variable child, which records the part
    /// as the value of its variable. The route is the one registered for
    /// `method` at the node reached.
    pub fn match_route(&self, method: HttpMethod, route: &str) -> (r: Result<RouteFound<'_, H>, NoRouteFound>)
        requires
            self.wf(),
        ensures
            match self.spec_match(method, route@) {
                None => r is Err,
                Some((t, ri, vars)) => r matches Ok(f) && *f.route == self.tree()[t].routes[ri].1
                    && f.variables@ == vars,
            },
    {
        let ghost tree = self.tree();
        let ghost s = route@;
        let mount_str = self.mount.as_str();
        let ml = mount_str.unicode_len();
        let n = route.unicode_len();
        if n < ml {
            return Err(NoRouteFound);
        }
        if !str_eq(route.substring_char(0, ml), mount_str) {
            return Err(NoRouteFound);
        }
        let ghost target = spec_walk(tree, 0, split_from(s, ml as int), Map::empty());
        assert(s.subrange(0, ml as int) == mount_str@);
        assert(self.spec_match(method, s) == match target {
            None => None,
            Some((t, vars)) => match find_method(tree[t].routes, method, 0) {
                Some(ri) => Some((t, ri, vars)),
                None => None,
            },
        });
        let mut cur: usize = 0;
        let mut pos: usize = ml;
        let mut variables = Params::new();
        let mut done = false;
        while !done
            invariant
                tree == self.tree(),
                tree_wf(tree),
                s == route@,
                n == s.len(),
                0 <= cur < tree.len(),
                target == spec_walk(tree, 0, split_from(s, ml as int), Map::empty()),
                !done ==> pos <= n && spec_walk(tree, cur as int, split_from(s, pos as int), variables@) == target,
                done ==> target == Some((cur as int, variables@)),
                self.spec_match(method, s) == match target {
                    None => None,
                    Some((t, vars)) => match find_method(tree[t].routes, method, 0) {
                        Some(ri) => Some((t, ri, vars)),
                        None => None,
                    },
                },
            decreases n - pos + (if done { 0int } else { 1int }),
        {
            let mut e = pos;
            while e < n && route.get_char(e) != '/'
                invariant
                    pos <= e <= n,
                    n == s.len(),
                    s == route@,
                    next_slash(s, pos as int) == next_slash(s, e as int),
                decreases n - e,
            {
                e = e + 1;
            }
            proof {
                lemma_next_slash_bounds(s, pos as int);
            }
            let part = route.substring_char(pos, e);
            let ghost rest = if e >= n { Seq::<Seq<char>>::empty() } else { split_from(s, e + 1) };
            assert(split_from(s, pos as int) == seq![part@] + rest);
            assert((seq![part@] + rest)[0] == part@);
            assert((seq![part@] + rest).drop_first() =~= rest);
            let node = &self.nodes[cur];
            let ghost old_cur = cur as int;
            let ghost old_vars = variables@;
            assert(tree[cur as int] == node.node_view());
            let ghost statics = tree[cur as int].statics;
            let mut j: usize = 0;
            let mut next: Option<usize> = None;
            while j < node.statics.len() && next.is_none()
                invariant
                    statics == node.node_view().statics,
                    j <= node.statics@.len(),
                    next is None ==> find_static(statics, part@, 0) == find_static(statics, part@, j as int),
                    next matches Some(c) ==> find_static(statics, part@, 0) == Some(c as int),
                decreases node.statics@.len() - j + (if next is None { 1int } else { 0int }),
            {
                assert(statics[j as int] == (node.statics@[j as int].0@, node.statics@[j as int].1 as int));
                if str_eq(node.statics[j].0.as_str(), part) {
                    next = Some(node.statics[j].1);
                } else {
                    j = j + 1;
                }
            }
            match next {
                Some(c) => {
                    assert(find_static(statics, part@, 0) == Some(c as int));
                    assert(exists|k: int| 0 <= k < statics.len() && statics[k].1 == c) by {
                        lemma_find_static(statics, part@, 0);
                    }
                    cur = c;
                },
                None => {
                    assert(find_static(statics, part@, 0) is None) by {
                        if j < node.statics@.len() {
                        } else {
                            assert(find_static(statics, part@, j as int) is None);
                        }
                    }
                    match node.variable {
                        Some(c) => {
                            assert(tree[cur as int].variable == Some(c as int));
                            assert(tree[c as int] == self.nodes@[c as int].node_view());
                            match &self.nodes[c].path_variable_name {
                                Some(name) => {
                                    variables.insert(name.clone(), String::from_str(part));
                                },
                                None => {
                                    proof {
                                        assert(false);
                                    }
                                    return Err(NoRouteFound);
                                },
                            }
                            cur = c;
                        },
                        None => {
                            assert(spec_walk(tree, old_cur, split_from(s, pos as int), old_vars) is None);
                            return Err(NoRouteFound);
                        },
                    }
                },
            }
            assert(spec_walk(tree, old_cur, split_from(s, pos as int), old_vars) == spec_walk(
                tree,
                cur as int,
                rest,
                variables@,
            ));
            if e >= n {
                done = true;
            } else {
                pos = e + 1;
            }
        }
        let node = &self.nodes[cur];
        assert(tree[cur as int] == node.node_view());
        let ghost routes = tree[cur as int].routes;
        let mut k: usize = 0;
        while k < node.routes.len()
            invariant
                routes == node.routes@,
                k <= node.routes@.len(),
                find_method(routes, method, 0) == find_method(routes, method, k as int),
                target == Some((cur as int, variables@)),
                tree == self.tree(),
                0 <= cur < tree.len(),
                routes == tree[cur as int].routes,
                s == route@,
                self.spec_match(method, s) == match target {
                    None => None,
                    Some((t, vars)) => match find_method(tree[t].routes, method, 0) {
                        Some(ri) => Some((t, ri, vars)),
                        None => None,
                    },
                },
            decreases node.routes@.len() - k,
        {
            if node.routes[k].0 == method {
                assert(find_method(routes, method, k as int) == Some(k as int));
                return Ok(RouteFound { route: &node.routes[k].1, variables });
            }
            k = k + 1;
        }
        Err(NoRouteFound)
    }

    /// Registers `route` for `method` at `path`, which must start with `/`.
    ///
    /// The path after its first `/` is split at every `/`. Each part leads
    /// to a child of the current node, made when missing: a literal child
    /// for literal text, the variable child for `{name}` (a new variable
    /// child takes `name` as its variable; an existing one keeps its own).
    /// The route replaces any route for `method` at the last node.
    pub fn route(&mut self, method: HttpMethod, path: String, route: Route<H>)
        requires
            old(self).wf(),
            path@.len() > 0,
            path@[0] == '/',
        ensures
            final(self).wf(),
            final(self).mount_view() == old(self).mount_view(),
            final(self).tree() == spec_insert(old(self).tree(), 0, split_from(path@, 1), method, route),
    {
        let ghost s = path@;
        let ghost target = spec_insert(self.tree(), 0, split_from(s, 1), method, route);
        let p = path.as_str();
        let n = p.unicode_len();
        let mut cur: usize = 0;
        let mut pos: usize = 1;
        let mut done = false;
        while !done
            invariant
                s == p@,
                n == s.len(),
                tree_wf(self.tree()),
                0 <= cur < self.tree().len(),
                self.mount_view() == old(self).mount_view(),
                target == spec_insert(old(self).tree(), 0, split_from(s, 1), method, route),
                !done ==> 1 <= pos <= n && spec_insert(self.tree(), cur as int, split_from(s, pos as int), method, route) == target,
                done ==> spec_insert(self.tree(), cur as int, Seq::<Seq<char>>::empty(), method, route) == target,
            decreases n - pos + (if done { 0int } else { 1int }),
        {
            let mut e = pos;
            while e < n && p.get_char(e) != '/'
                invariant
                    pos <= e <= n,
                    n == s.len(),
                    s == p@,
                    next_slash(s, pos as int) == next_slash(s, e as int),
                decreases n - e,
            {
                e = e + 1;
            }
            proof {
                lemma_next_slash_bounds(s, pos as int);
            }
            let part = p.substring_char(pos, e);
            let ghost rest = if e >= n { Seq::<Seq<char>>::empty() } else { split_from(s, e + 1) };
            assert(split_from(s, pos as int) == seq![part@] + rest);
            assert((seq![part@] + rest)[0] == part@);
            assert((seq![part@] + rest).drop_first() =~= rest);
            let ghost ns = self.tree();
            let ghost old_cur = cur as int;
            assert(ns[cur as int] == self.nodes@[cur as int].node_view());
            let plen = e - pos;
            let is_var = plen >= 2 && part.get_char(0) == '{' && part.get_char(plen - 1) == '}';
            assert(is_var == is_variable_part(part@));
            if is_var {
                match self.nodes[cur].variable {
                    Some(c) => {
                        assert(ns[cur as int].variable == Some(c as int));
                        cur = c;
                    },
                    None => {
                        let c = self.nodes.len();
                        let name = String::from_str(part.substring_char(1, plen - 1));
                        self.nodes[cur].variable = Some(c);
                        self.nodes.push(RouteNode { path_variable_name: Some(name), routes: Vec::new(), statics: Vec::new(), variable: None });
                        let ghost ns1 = ns.update(old_cur, NodeView { variable: Some(c as int), ..ns[old_cur] }).push(
                            fresh_node(Some(variable_name(part@))),
                        );
                        assert(self.nodes@[c as int].node_view().routes =~= Seq::<(HttpMethod, Route<H>)>::empty());
                        assert(self.nodes@[c as int].node_view().statics =~= Seq::<(Seq<char>, int)>::empty());
                        assert(self.tree() =~= ns1);
                        cur = c;
                    },
                }
            } else {
                let node = &self.nodes[cur];
                let ghost statics = ns[cur as int].statics;
                let mut j: usize = 0;
                let mut next: Option<usize> = None;
                while j < node.statics.len() && next.is_none()
                    invariant
                        statics == node.node_view().statics,
                        j <= node.statics@.len(),
                        next is None ==> find_static(statics, part@, 0) == find_static(statics, part@, j as int),
                        next matches Some(c) ==> find_static(statics, part@, 0) == Some(c as int),
                    decreases node.statics@.len() - j + (if next is None { 1int } else { 0int }),
                {
                    assert(statics[j as int] == (node.statics@[j as int].0@, node.statics@[j as int].1 as int));
                    if str_eq(node.statics[j].0.as_str(), part) {
                        next = Some(node.statics[j].1);
                    } else {
                        j = j + 1;
                    }
                }
                match next {
                    Some(c) => {
                        proof {
                            lemma_find_static(statics, part@, 0);
                        }
                        cur = c;
                    },
                    None => {
                        assert(find_static(statics, part@, 0) is None) by {
                            if j < node.statics@.len() {
                            } else {
                                assert(find_static(statics, part@, j as int) is None);
                            }
                        }
                        let c = self.nodes.len();
                        self.nodes[cur].statics.push((String::from_str(part), c));
                        self.nodes.push(RouteNode { path_variable_name: None, routes: Vec::new(), statics: Vec::new(), variable: None });
                        let ghost ns1 = ns.update(old_cur, NodeView { statics: ns[old_cur].statics.push((part@, c as int)), ..ns[old_cur] }).push(
                            fresh_node(None),
                        );
                        assert(self.nodes@[c as int].node_view().routes =~= Seq::<(HttpMethod, Route<H>)>::empty());
                        assert(self.nodes@[c as int].node_view().statics =~= Seq::<(Seq<char>, int)>::empty());
                        assert(self.nodes@[old_cur].node_view().statics =~= ns[old_cur].statics.push((part@, c as int)));
                        assert(self.tree() =~= ns1);
                        cur = c;
                    },
                }
            }
            if e >= n {
                done = true;
            } else {
                pos = e + 1;
            }
        }
        let ghost ns = self.tree();
        assert(ns[cur as int] == self.nodes@[cur as int].node_view());
        let ghost routes = ns[cur as int].routes;
        let rn = self.nodes[cur].routes.len();
        let mut k: usize = 0;
        let mut slot: Option<usize> = None;
        while k < rn && slot.is_none()
            invariant
                rn == routes.len(),
                routes == self.nodes@[cur as int].routes@,
                0 <= cur < self.nodes@.len(),
                k <= rn,
                slot is None ==> find_method(routes, method, 0) == find_method(routes, method, k as int),
                slot matches Some(i) ==> find_method(routes, method, 0) == Some(i as int) && i < rn,
            decreases rn - k + (if slot is None { 1int } else { 0int }),
        {
            if self.nodes[cur].routes[k].0 == method {
                slot = Some(k);
            } else {
                k = k + 1;
            }
        }
        let ghost entry = (method, route);
        match slot {
            Some(i) => {
                self.nodes[cur].routes.set(i, (method, route));
            },
            None => {
                assert(find_method(routes, method, k as int) is None);
                self.nodes[cur].routes.push((method, route));
            },
        }
        assert(self.nodes@[cur as int].node_view().routes =~= routes_set(routes, method, entry.1));
        assert(self.tree() =~= ns.update(cur as int, NodeView { routes: routes_set(ns[cur as int].routes, method, entry.1), ..ns[cur as int] }));
    }
}

proof fn lemma_find_method<H>(routes: Seq<(HttpMethod, Route<H>)>, m: HttpMethod, from: int)
    requires
        0 <= from <= routes.len(),
    ensures
        match find_method(routes, m, from) {
            Some(i) => from <= i < routes.len() && routes[i].0 == m && forall|k: int| from <= k < i ==> routes[k].0 != m,
            None => forall|k: int| from <= k < routes.len() ==> routes[k].0 != m,
        },
    decreases routes.len() - from,
{
    if from < routes.len() && routes[from].0 != m {
        lemma_find_method(routes, m, from + 1);
    }
}

proof fn lemma_find_method_first<H>(routes: Seq<(HttpMethod, Route<H>)>, m: HttpMethod, from: int, i: int)
    requires
        0 <= from <= i < routes.len(),
        routes[i].0 == m,
        forall|k: int| from <= k < i ==> routes[k].0 != m,
    ensures
        find_method(routes, m, from) == Some(i),
    decreases i - from,
{
    if from < i {
        lemma_find_method_first(routes, m, from + 1, i);
    }
}

/// After setting the route for `m`, looking `m` up gives that route.
proof fn lemma_routes_set<H>(routes: Seq<(HttpMethod, Route<H>)>, m: HttpMethod, r: Route<H>)
    ensures
        match find_method(routes_set(routes, m, r), m, 0) {
            Some(ri) => routes_set(routes, m, r)[ri].1 == r,
            None => false,
        },
{
    lemma_find_method(routes, m, 0);
    let rs = routes_set(routes, m, r);
    match find_method(routes, m, 0) {
        Some(i) => {
            lemma_find_method_first(rs, m, 0, i);
        },
        None => {
            lemma_find_method_first(rs, m, 0, routes.len() as int);
        },
    }
}

proof fn lemma_find_static_push(statics: Seq<(Seq<char>, int)>, e: (Seq<char>, int), p: Seq<char>, from: int)
    requires
        0 <= from <= statics.len(),
        find_static(statics, p, from) is None,
        e.0 == p,
    ensures
        find_static(statics.push(e), p, from) == Some(e.1),
    decreases statics.len() - from,
{
    if from < statics.len() {
        assert(statics.push(e)[from] == statics[from]);
        lemma_find_static_push(statics, e, p, from + 1);
    } else {
        assert(statics.push(e)[from] == e);
    }
}

proof fn lemma_split_nonempty(s: Seq<char>, pos: int)
    requires
        0 <= pos <= s.len(),
    ensures
        split_from(s, pos).len() >= 1,
    decreases s.len() - pos,
{
    lemma_next_slash_bounds(s, pos);
}

/// Registering below `cur` keeps the tree well formed, keeps every node
/// before `cur`, and only adds nodes.
proof fn lemma_insert_frame<H>(ns: Seq<NodeView<H>>, cur: int, parts: Seq<Seq<char>>, m: HttpMethod, r: Route<H>)
    requires
        tree_wf(ns),
        0 <= cur < ns.len(),
    ensures
        tree_wf(spec_insert(ns, cur, parts, m, r)),
        spec_insert(ns, cur, parts, m, r).len() >= ns.len(),
        forall|k: int| 0 <= k < cur ==> spec_insert(ns, cur, parts, m, r)[k] == ns[k],
    decreases parts.len(),
{
    if parts.len() == 0 {
        let res = spec_insert(ns, cur, parts, m, r);
        assert forall|k: int| 0 <= k < cur implies res[k] == ns[k] by {}
        assert forall|i: int| 0 <= i < res.len() && (#[trigger] res[i].variable) is Some implies i < res[i].variable->0
            < res.len() && res[res[i].variable->0].var_name is Some by {
            assert(res[i].variable == ns[i].variable);
            assert(res[ns[i].variable->0].var_name == ns[ns[i].variable->0].var_name);
        }
        assert forall|i: int, j: int| 0 <= i < res.len() && 0 <= j < res[i].statics.len() implies i
            < #[trigger] res[i].statics[j].1 < res.len() by {
            assert(res[i].statics == ns[i].statics);
        }
    } else {
        let p = parts[0];
        let rest = parts.drop_first();
        if is_variable_part(p) {
            match ns[cur].variable {
                Some(c) => {
                    assert(cur < c);
                    lemma_insert_frame(ns, c, rest, m, r);
                },
                None => {
                    let c = ns.len() as int;
                    let ns1 = ns.update(cur, NodeView { variable: Some(c), ..ns[cur] }).push(
                        fresh_node(Some(variable_name(p))),
                    );
                    lemma_wf_add_variable(ns, cur, variable_name(p));
                    lemma_insert_frame(ns1, c, rest, m, r);
                    assert forall|k: int| 0 <= k < cur implies spec_insert(ns, cur, parts, m, r)[k] == ns[k] by {
                        assert(ns1[k] == ns[k]);
                    }
                },
            }
        } else {
            match find_static(ns[cur].statics, p, 0) {
                Some(c) => {
                    lemma_find_static(ns[cur].statics, p, 0);
                    let j = choose|j: int| 0 <= j < ns[cur].statics.len() && ns[cur].statics[j].1 == c;
                    assert(cur < ns[cur].statics[j].1);
                    lemma_insert_frame(ns, c, rest, m, r);
                },
                None => {
                    let c = ns.len() as int;
                    let ns1 = ns.update(cur, NodeView { statics: ns[cur].statics.push((p, c)), ..ns[cur] }).push(
                        fresh_node(None),
                    );
                    lemma_wf_add_static(ns, cur, p);
                    lemma_insert_frame(ns1, c, rest, m, r);
                    assert forall|k: int| 0 <= k < cur implies spec_insert(ns, cur, parts, m, r)[k] == ns[k] by {
                        assert(ns1[k] == ns[k]);
                    }
                },
            }
        }
    }
}

proof fn lemma_wf_add_variable<H>(ns: Seq<NodeView<H>>, cur: int, name: Seq<char>)
    requires
        tree_wf(ns),
        0 <= cur < ns.len(),
        ns[cur].variable is None,
    ensures
        tree_wf(ns.update(cur, NodeView { variable: Some(ns.len() as int), ..ns[cur] }).push(fresh_node(Some(name)))),
{
    let c = ns.len() as int;
    let ns1 = ns.update(cur, NodeView { variable: Some(c), ..ns[cur] }).push(fresh_node::<H>(Some(name)));
    assert forall|i: int| 0 <= i < ns1.len() && (#[trigger] ns1[i].variable) is Some implies i < ns1[i].variable->0
        < ns1.len() && ns1[ns1[i].variable->0].var_name is Some by {
        if i != cur && i < c {
            assert(ns1[i] == ns[i]);
            let v = ns[i].variable->0;
            assert(ns1[v].var_name == ns[v].var_name);
        }
    }
    assert forall|i: int, j: int| 0 <= i < ns1.len() && 0 <= j < ns1[i].statics.len() implies i
        < #[trigger] ns1[i].statics[j].1 < ns1.len() by {
        if i < c {
            assert(ns1[i].statics == ns[i].statics);
        }
    }
}

proof fn lemma_wf_add_static<H>(ns: Seq<NodeView<H>>, cur: int, p: Seq<char>)
    requires
        tree_wf(ns),
        0 <= cur < ns.len(),
    ensures
        tree_wf(ns.update(cur, NodeView { statics: ns[cur].statics.push((p, ns.len() as int)), ..ns[cur] }).push(fresh_node(None))),
{
    let c = ns.len() as int;
    let ns1 = ns.update(cur, NodeView { statics: ns[cur].statics.push((p, c)), ..ns[cur] }).push(fresh_node::<H>(None));
    assert forall|i: int| 0 <= i < ns1.len() && (#[trigger] ns1[i].variable) is Some implies i < ns1[i].variable->0
        < ns1.len() && ns1[ns1[i].variable->0].var_name is Some by {
        if i < c {
            assert(ns1[i].variable == ns[i].variable);
            let v = ns[i].variable->0;
            assert(ns1[v].var_name == ns[v].var_name);
        }
    }
    assert forall|i: int, j: int| 0 <= i < ns1.len() && 0 <= j < ns1[i].statics.len() implies i
        < #[trigger] ns1[i].statics[j].1 < ns1.len() by {
        if i < c && i != cur {
            assert(ns1[i].statics == ns[i].statics);
        } else if i == cur {
            if j < ns[cur].statics.len() {
                assert(ns1[i].statics[j] == ns[cur].statics[j]);
            }
        }
    }
}

/// The walk ended at a node where `m` has route `r`, with variables `vars`.
spec fn walk_reaches<H>(
    ns: Seq<NodeView<H>>,
    w: Option<(int, Map<Seq<char>, Seq<char>>)>,
    vars: Map<Seq<char>, Seq<char>>,
    m: HttpMethod,
    r: Route<H>,
) -> bool {
    match w {
        Some((t, v)) => v == vars && match find_method(ns[t].routes, m, 0) {
            Some(ri) => ns[t].routes[ri].1 == r,
            None => false,
        },
        None => false,
    }
}

/// Walking the literal path that was just registered reaches the new route.
proof fn lemma_insert_walk<H>(
    ns: Seq<NodeView<H>>,
    cur: int,
    parts: Seq<Seq<char>>,
    m: HttpMethod,
    r: Route<H>,
    vars: Map<Seq<char>, Seq<char>>,
)
    requires
        tree_wf(ns),
        0 <= cur < ns.len(),
        forall|i: int| 0 <= i < parts.len() ==> !is_variable_part(#[trigger] parts[i]),
    ensures
        walk_reaches(
            spec_insert(ns, cur, parts, m, r),
            spec_walk(spec_insert(ns, cur, parts, m, r), cur, parts, vars),
            vars,
            m,
            r,
        ),
    decreases parts.len(),
{
    if parts.len() == 0 {
        lemma_routes_set(ns[cur].routes, m, r);
    } else {
        let p = parts[0];
        let rest = parts.drop_first();
        assert(!is_variable_part(parts[0]));
        assert forall|i: int| 0 <= i < rest.len() implies !is_variable_part(#[trigger] rest[i]) by {
            assert(rest[i] == parts[i + 1]);
        }
        let res = spec_insert(ns, cur, parts, m, r);
        match find_static(ns[cur].statics, p, 0) {
            Some(c) => {
                lemma_find_static(ns[cur].statics, p, 0);
                lemma_insert_frame(ns, c, rest, m, r);
                lemma_insert_walk(ns, c, rest, m, r, vars);
                assert(res[cur] == ns[cur]);
            },
            None => {
                let c = ns.len() as int;
                let ns1 = ns.update(cur, NodeView { statics: ns[cur].statics.push((p, c)), ..ns[cur] }).push(
                    fresh_node(None),
                );
                lemma_wf_add_static(ns, cur, p);
                lemma_insert_frame(ns1, c, rest, m, r);
                lemma_insert_walk(ns1, c, rest, m, r, vars);
                assert(res[cur] == ns1[cur]);
                lemma_find_static_push(ns[cur].statics, (p, c), p, 0);
            },
        }
    }
}

/// The variables that walking `qs` along the registered parts `parts`
/// binds: each variable part takes the request part at its place, later
/// ones over earlier ones of the same name.
pub open spec fn bound_vars(parts: Seq<Seq<char>>, qs: Seq<Seq<char>>, vars: Map<Seq<char>, Seq<char>>) -> Map<Seq<char>, Seq<char>>
    decreases parts.len(),
{
    if parts.len() == 0 || qs.len() == 0 {
        vars
    } else if is_variable_part(parts[0]) {
        bound_vars(parts.drop_first(), qs.drop_first(), vars.insert(variable_name(parts[0]), qs[0]))
    } else {
        bound_vars(parts.drop_first(), qs.drop_first(), vars)
    }
}

/// Request parts that fit registered parts: as many, and equal wherever
/// the registered part is literal.
pub open spec fn parts_fit(parts: Seq<Seq<char>>, qs: Seq<Seq<char>>) -> bool {
    &&& qs.len() == parts.len()
    &&& forall|i: int| 0 <= i < parts.len() && !is_variable_part(#[trigger] parts[i]) ==> qs[i] == parts[i]
}

/// Registering keeps the variable name of every node.
proof fn lemma_insert_keeps_names<H>(ns: Seq<NodeView<H>>, cur: int, parts: Seq<Seq<char>>, m: HttpMethod, r: Route<H>)
    requires
        tree_wf(ns),
        0 <= cur < ns.len(),
    ensures
        forall|k: int| 0 <= k < ns.len() ==> #[trigger] spec_insert(ns, cur, parts, m, r)[k].var_name == ns[k].var_name,
    decreases parts.len(),
{
    if parts.len() > 0 {
        let p = parts[0];
        let rest = parts.drop_first();
        if is_variable_part(p) {
            match ns[cur].variable {
                Some(c) => {
                    lemma_insert_keeps_names(ns, c, rest, m, r);
                },
                None => {
                    let c = ns.len() as int;
                    let ns1 = ns.update(cur, NodeView { variable: Some(c), ..ns[cur] }).push(
                        fresh_node(Some(variable_name(p))),
                    );
                    lemma_wf_add_variable(ns, cur, variable_name(p));
                    lemma_insert_keeps_names(ns1, c, rest, m, r);
                    assert forall|k: int| 0 <= k < ns.len() implies #[trigger] spec_insert(ns, cur, parts, m, r)[k].var_name
                        == ns[k].var_name by {
                        assert(ns1[k].var_name == ns[k].var_name);
                    }
                },
            }
        } else {
            match find_static(ns[cur].statics, p, 0) {
                Some(c) => {
                    lemma_find_static(ns[cur].statics, p, 0);
                    lemma_insert_keeps_names(ns, c, rest, m, r);
                },
                None => {
                    let c = ns.len() as int;
                    let ns1 = ns.update(cur, NodeView { statics: ns[cur].statics.push((p, c)), ..ns[cur] }).push(
                        fresh_node(None),
                    );
                    lemma_wf_add_static(ns, cur, p);
                    lemma_insert_keeps_names(ns1, c, rest, m, r);
                    assert forall|k: int| 0 <= k < ns.len() implies #[trigger] spec_insert(ns, cur, parts, m, r)[k].var_name
                        == ns[k].var_name by {
                        assert(ns1[k].var_name == ns[k].var_name);
                    }
                },
            }
        }
    }
}

/// Registering below a node with no children, then walking request parts
/// that fit, reaches the new route with the variables bound.
proof fn lemma_insert_walk_fresh<H>(
    ns: Seq<NodeView<H>>,
    cur: int,
    parts: Seq<Seq<char>>,
    qs: Seq<Seq<char>>,
    m: HttpMethod,
    r: Route<H>,
    vars: Map<Seq<char>, Seq<char>>,
)
    requires
        tree_wf(ns),
        0 <= cur < ns.len(),
        ns[cur].statics.len() == 0,
        ns[cur].variable is None,
        parts_fit(parts, qs),
    ensures
        walk_reaches(
            spec_insert(ns, cur, parts, m, r),
            spec_walk(spec_insert(ns, cur, parts, m, r), cur, qs, vars),
            bound_vars(parts, qs, vars),
            m,
            r,
        ),
    decreases parts.len(),
{
    if parts.len() == 0 {
        lemma_routes_set(ns[cur].routes, m, r);
    } else {
        let p = parts[0];
        let q = qs[0];
        let rest = parts.drop_first();
        let qrest = qs.drop_first();
        assert forall|i: int| 0 <= i < rest.len() && !is_variable_part(#[trigger] rest[i]) implies qrest[i] == rest[i] by {
            assert(rest[i] == parts[i + 1]);
            assert(qrest[i] == qs[i + 1]);
        }
        let res = spec_insert(ns, cur, parts, m, r);
        let c = ns.len() as int;
        if is_variable_part(p) {
            let ns1 = ns.update(cur, NodeView { variable: Some(c), ..ns[cur] }).push(fresh_node(Some(variable_name(p))));
            lemma_wf_add_variable(ns, cur, variable_name(p));
            lemma_insert_frame(ns1, c, rest, m, r);
            lemma_insert_keeps_names(ns1, c, rest, m, r);
            lemma_insert_walk_fresh(ns1, c, rest, qrest, m, r, vars.insert(variable_name(p), q));
            assert(res[cur] == ns1[cur]);
            assert(res[c].var_name == ns1[c].var_name);
            assert(find_static(res[cur].statics, q, 0) is None);
        } else {
            let ns1 = ns.update(cur, NodeView { statics: ns[cur].statics.push((p, c)), ..ns[cur] }).push(fresh_node(None));
            lemma_wf_add_static(ns, cur, p);
            lemma_insert_frame(ns1, c, rest, m, r);
            lemma_insert_walk_fresh(ns1, c, rest, qrest, m, r, vars);
            assert(res[cur] == ns1[cur]);
            assert(q == p);
            assert(res[cur].statics == seq![(p, c)]);
            assert(find_static(res[cur].statics, q, 0) == Some(c));
        }
    }
}

/// On a router with nothing registered, a route registered at a path is
/// the one that a request for that method is answered with at every path
/// that starts with the mount prefix and whose parts after it fit the
/// registered ones; each variable takes the request part at its place.
pub proof fn lemma_route_is_found_with_variables<H>(
    before: Router<H>,
    after: Router<H>,
    m: HttpMethod,
    path: Seq<char>,
    route: Route<H>,
    request: Seq<char>,
)
    requires
        before.wf(),
        before.tree() == seq![fresh_node::<H>(None)],
        path.len() > 0,
        path[0] == '/',
        after.mount_view() == before.mount_view(),
        after.tree() == spec_insert(before.tree(), 0, split_from(path, 1), m, route),
        request.len() >= before.mount_view().spec_str().len(),
        request.subrange(0, before.mount_view().spec_str().len() as int) == before.mount_view().spec_str(),
        parts_fit(split_from(path, 1), split_from(request, before.mount_view().spec_str().len() as int)),
    ensures
        match after.spec_match(m, request) {
            Some((t, ri, vars)) => vars == bound_vars(
                split_from(path, 1),
                split_from(request, before.mount_view().spec_str().len() as int),
                Map::empty(),
            ) && after.tree()[t].routes[ri].1 == route,
            None => false,
        },
{
    let n = before.mount_view().spec_str().len() as int;
    lemma_insert_walk_fresh(before.tree(), 0, split_from(path, 1), split_from(request, n), m, route, Map::empty());
}

/// A walk only adds variables.
proof fn lemma_walk_vars_grow<H>(ns: Seq<NodeView<H>>, cur: int, parts: Seq<Seq<char>>, vars: Map<Seq<char>, Seq<char>>)
    ensures
        spec_walk(ns, cur, parts, vars) matches Some((t, v)) ==> vars.dom().subset_of(v.dom()),
    decreases parts.len(),
{
    if parts.len() > 0 {
        let p = parts[0];
        let rest = parts.drop_first();
        match find_static(ns[cur].statics, p, 0) {
            Some(c) => lemma_walk_vars_grow(ns, c, rest, vars),
            None => match ns[cur].variable {
                Some(c) => lemma_walk_vars_grow(ns, c, rest, vars.insert(ns[c].var_name.unwrap(), p)),
                None => {},
            },
        }
    }
}

/// Walking the same parts through two trees of the same shape (the same
/// edges and variable names) gives the same answer.
proof fn lemma_walk_same_shape<H>(
    ns: Seq<NodeView<H>>,
    ns2: Seq<NodeView<H>>,
    cur: int,
    parts: Seq<Seq<char>>,
    vars: Map<Seq<char>, Seq<char>>,
)
    requires
        tree_wf(ns),
        0 <= cur < ns.len(),
        ns2.len() == ns.len(),
        forall|k: int|
            0 <= k < ns.len() ==> (#[trigger] ns2[k]).statics == ns[k].statics && ns2[k].variable == ns[k].variable
                && ns2[k].var_name == ns[k].var_name,
    ensures
        spec_walk(ns2, cur, parts, vars) == spec_walk(ns, cur, parts, vars),
    decreases parts.len(),
{
    if parts.len() > 0 {
        let p = parts[0];
        let rest = parts.drop_first();
        assert(ns2[cur].statics == ns[cur].statics && ns2[cur].variable == ns[cur].variable);
        match find_static(ns[cur].statics, p, 0) {
            Some(c) => {
                lemma_find_static(ns[cur].statics, p, 0);
                lemma_walk_same_shape(ns, ns2, c, rest, vars);
            },
            None => match ns[cur].variable {
                Some(c) => {
                    assert(ns2[c].var_name == ns[c].var_name);
                    lemma_walk_same_shape(ns, ns2, c, rest, vars.insert(ns[c].var_name.unwrap(), p));
                },
                None => {},
            },
        }
    }
}

/// Registering at a literal path that a walk already reaches, with no
/// variables, only sets the route at the node reached.
proof fn lemma_insert_existing<H>(ns: Seq<NodeView<H>>, cur: int, parts: Seq<Seq<char>>, m: HttpMethod, r: Route<H>, t: int)
    requires
        tree_wf(ns),
        0 <= cur < ns.len(),
        forall|i: int| 0 <= i < parts.len() ==> !is_variable_part(#[trigger] parts[i]),
        spec_walk(ns, cur, parts, Map::empty()) == Some((t, Map::<Seq<char>, Seq<char>>::empty())),
    ensures
        0 <= t < ns.len(),
        spec_insert(ns, cur, parts, m, r) == ns.update(t, NodeView { routes: routes_set(ns[t].routes, m, r), ..ns[t] }),
    decreases parts.len(),
{
    if parts.len() > 0 {
        let p = parts[0];
        let rest = parts.drop_first();
        assert(!is_variable_part(parts[0]));
        assert forall|i: int| 0 <= i < rest.len() implies !is_variable_part(#[trigger] rest[i]) by {
            assert(rest[i] == parts[i + 1]);
        }
        match find_static(ns[cur].statics, p, 0) {
            Some(c) => {
                lemma_find_static(ns[cur].statics, p, 0);
                lemma_insert_existing(ns, c, rest, m, r, t);
            },
            None => {
                if ns[cur].variable is Some {
                    let c = ns[cur].variable->0;
                    let name = ns[c].var_name.unwrap();
                    lemma_walk_vars_grow(ns, c, rest, Map::<Seq<char>, Seq<char>>::empty().insert(name, p));
                    assert(Map::<Seq<char>, Seq<char>>::empty().insert(name, p).dom().contains(name));
                }
            },
        }
    }
}

proof fn lemma_find_method_same_methods<H>(
    a: Seq<(HttpMethod, Route<H>)>,
    b: Seq<(HttpMethod, Route<H>)>,
    m: HttpMethod,
    from: int,
)
    requires
        a.len() == b.len(),
        forall|k: int| 0 <= k < a.len() ==> (#[trigger] a[k]).0 == b[k].0,
    ensures
        find_method(a, m, from) == find_method(b, m, from),
    decreases a.len() - from,
{
    if 0 <= from < a.len() {
        assert(a[from].0 == b[from].0);
        lemma_find_method_same_methods(a, b, m, from + 1);
    }
}

proof fn lemma_find_method_push<H>(a: Seq<(HttpMethod, Route<H>)>, e: (HttpMethod, Route<H>), m: HttpMethod, from: int)
    requires
        e.0 != m,
        0 <= from,
    ensures
        find_method(a.push(e), m, from) == find_method(a, m, from),
    decreases a.len() + 1 - from,
{
    if from < a.len() {
        assert(a.push(e)[from] == a[from]);
        lemma_find_method_push(a, e, m, from + 1);
    } else if from == a.len() {
        assert(a.push(e)[from] == e);
        assert(find_method(a.push(e), m, from + 1) is None);
    }
}

/// Setting the route of one method leaves where and what the route of
/// another method is.
proof fn lemma_routes_set_other<H>(routes: Seq<(HttpMethod, Route<H>)>, m: HttpMethod, r: Route<H>, m2: HttpMethod)
    requires
        m2 != m,
    ensures
        find_method(routes_set(routes, m, r), m2, 0) == find_method(routes, m2, 0),
        find_method(routes, m2, 0) matches Some(i) ==> routes_set(routes, m, r)[i] == routes[i],
{
    lemma_find_method(routes, m, 0);
    lemma_find_method(routes, m2, 0);
    let rs = routes_set(routes, m, r);
    match find_method(routes, m, 0) {
        Some(i) => {
            assert forall|k: int| 0 <= k < routes.len() implies (#[trigger] routes[k]).0 == rs[k].0 by {}
            lemma_find_method_same_methods(routes, rs, m2, 0);
        },
        None => {
            lemma_find_method_push(routes, (m, r), m2, 0);
        },
    }
}

/// Registering a route for one method at a literal path leaves the route
/// that another method has at that path as it was.
pub proof fn lemma_route_keeps_other_methods<H>(
    before: Router<H>,
    after: Router<H>,
    m: HttpMethod,
    path: Seq<char>,
    route: Route<H>,
    m2: HttpMethod,
    request: Seq<char>,
)
    requires
        before.wf(),
        path.len() > 0,
        path[0] == '/',
        forall|i: int| 0 <= i < split_from(path, 1).len() ==> !is_variable_part(#[trigger] split_from(path, 1)[i]),
        after.mount_view() == before.mount_view(),
        after.tree() == spec_insert(before.tree(), 0, split_from(path, 1), m, route),
        request.len() >= before.mount_view().spec_str().len(),
        request.subrange(0, before.mount_view().spec_str().len() as int) == before.mount_view().spec_str(),
        split_from(request, before.mount_view().spec_str().len() as int) == split_from(path, 1),
        m2 != m,
        before.spec_match(m2, request) matches Some((_, _, vars)) && vars == Map::<Seq<char>, Seq<char>>::empty(),
    ensures
        after.spec_match(m2, request) == before.spec_match(m2, request),
        match before.spec_match(m2, request) {
            Some((t, ri, _)) => after.tree()[t].routes[ri] == before.tree()[t].routes[ri],
            None => false,
        },
{
    let ns = before.tree();
    let parts = split_from(path, 1);
    let (t, ri, vars) = before.spec_match(m2, request)->0;
    lemma_insert_existing(ns, 0, parts, m, route, t);
    let ns2 = after.tree();
    assert forall|k: int| 0 <= k < ns.len() implies (#[trigger] ns2[k]).statics == ns[k].statics && ns2[k].variable
        == ns[k].variable && ns2[k].var_name == ns[k].var_name by {}
    lemma_walk_same_shape(ns, ns2, 0, parts, Map::empty());
    lemma_routes_set_other(ns[t].routes, m, route, m2);
}

/// A router that has nothing registered answers every request with
/// "no route".
pub proof fn lemma_empty_router_matches_nothing<H>(r: Router<H>, m: HttpMethod, path: Seq<char>)
    requires
        r.tree() == seq![fresh_node::<H>(None)],
    ensures
        r.spec_match(m, path) is None,
{
    let mount = r.mount_view().spec_str();
    if path.len() >= mount.len() && path.subrange(0, mount.len() as int) == mount {
        lemma_split_nonempty(path, mount.len() as int);
    }
}

/// A route registered at a path of literal parts only is the one that a
/// request for that method is answered with at the mount prefix followed
/// by the same parts, with no variables.
pub proof fn lemma_literal_route_is_found<H>(
    before: Router<H>,
    after: Router<H>,
    m: HttpMethod,
    path: Seq<char>,
    route: Route<H>,
    request: Seq<char>,
)
    requires
        before.wf(),
        path.len() > 0,
        path[0] == '/',
        forall|i: int| 0 <= i < split_from(path, 1).len() ==> !is_variable_part(#[trigger] split_from(path, 1)[i]),
        after.mount_view() == before.mount_view(),
        after.tree() == spec_insert(before.tree(), 0, split_from(path, 1), m, route),
        request.len() >= before.mount_view().spec_str().len(),
        request.subrange(0, before.mount_view().spec_str().len() as int) == before.mount_view().spec_str(),
        split_from(request, before.mount_view().spec_str().len() as int) == split_from(path, 1),
    ensures
        match after.spec_match(m, request) {
            Some((t, ri, vars)) => vars == Map::<Seq<char>, Seq<char>>::empty() && after.tree()[t].routes[ri].1
                == route,
            None => false,
        },
{
    lemma_insert_walk(before.tree(), 0, split_from(path, 1), m, route, Map::empty());
}

} // verus!
