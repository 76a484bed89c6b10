use vstd::prelude::*;

use crate::text::push_char;

verus! {

/// A character of a path in a [`Node`] tree.
#[derive(Debug, Default, Clone, Copy, PartialEq, Eq, Hash, Structural)]
pub enum NodeMeta {
    #[default]
    Slash,
    StaticSegmentPart(char),
}

/// A piece of a registered path: one character, or a `{name}` part.
#[derive(Debug, Clone, PartialEq, Eq)]
pub enum RoutePart {
    Static(NodeMeta),
    Dynamic(String),
}

pub enum RoutePartView {
    Static(NodeMeta),
    Dynamic(Seq<char>),
}

impl View for RoutePart {
    type V = RoutePartView;

    open spec fn view(&self) -> RoutePartView {
        match self {
            RoutePart::Static(m) => RoutePartView::Static(*m),
            RoutePart::Dynamic(s) => RoutePartView::Dynamic(s@),
        }
    }
}

/// The text a [`NodeMeta`] stands for.
pub open spec fn meta_text(m: NodeMeta) -> Seq<char> {
    match m {
        NodeMeta::Slash => seq!['/'],
        NodeMeta::StaticSegmentPart(c) => seq![c],
    }
}

impl NodeMeta {
    /// The text of this character as a string.
    pub fn text(&self) -> (r: String)
        ensures
            r@ == meta_text(*self),
    {
        match self {
            NodeMeta::Slash => {
                proof {
                    reveal_strlit("/");
                }
                String::from_str("/")
            },
            NodeMeta::StaticSegmentPart(c) => {
                let mut s = String::new();
                push_char(&mut s, *c);
                s
            },
        }
    }
}

/// A radix tree over path characters; a node may also have one dynamic
/// child, named after a path variable.
#[derive(Debug)]
pub struct Node<T> {
    children: Vec<(NodeMeta, Node<T>)>,
    handler: Option<T>,
    dynamic_child: Option<(String, Box<Node<T>>)>,
}

/// Index of the first `}` in `s` at or after `from`, if any.
pub open spec fn next_close(s: Seq<char>, from: int) -> Option<int>
    decreases s.len() - from,
{
    if from < 0 || from >= s.len() {
        None
    } else if s[from] == '}' {
        Some(from)
    } else {
        next_close(s, from + 1)
    }
}

/// The parts that `s` from `pos` on is read as, or nothing when a `{` has
/// no `}` after it (reading then runs off the end of the path).
pub open spec fn spec_registrable(s: Seq<char>, pos: int) -> Option<Seq<RoutePartView>>
    decreases s.len() - pos,
{
    if pos < 0 || pos >= s.len() {
        Some(seq![])
    } else if s[pos] == '/' {
        match spec_registrable(s, pos + 1) {
            Some(rest) => Some(seq![RoutePartView::Static(NodeMeta::Slash)] + rest),
            None => None,
        }
    } else if s[pos] == '{' {
        match next_close(s, pos) {
            None => None,
            Some(e) => if e <= pos || e >= s.len() {
                None
            } else {
                match spec_registrable(s, e + 1) {
                    Some(rest) => Some(seq![RoutePartView::Dynamic(s.subrange(pos + 1, e))] + rest),
                    None => None,
                }
            },
        }
    } else {
        match spec_registrable(s, pos + 1) {
            Some(rest) => Some(seq![RoutePartView::Static(NodeMeta::StaticSegmentPart(s[pos]))] + rest),
            None => None,
        }
    }
}

proof fn lemma_next_close(s: Seq<char>, from: int)
    requires
        0 <= from,
    ensures
        match next_close(s, from) {
            Some(e) => from <= e < s.len() && s[e] == '}' && forall|k: int| from <= k < e ==> s[k] != '}',
            None => forall|k: int| from <= k < s.len() ==> s[k] != '}',
        },
    decreases s.len() - from,
{
    if from < s.len() && s[from] != '}' {
        lemma_next_close(s, from + 1);
    }
}

/// The first child for `meta`.
pub open spec fn child_for<T>(children: Seq<(NodeMeta, Node<T>)>, meta: NodeMeta, from: int) -> Option<Node<T>>
    decreases children.len() - from,
{
    if from < 0 || from >= children.len() {
        None
    } else if children[from].0 == meta {
        Some(children[from].1)
    } else {
        child_for(children, meta, from + 1)
    }
}

/// The outcome of a lookup walk.
pub enum WalkOutcome<T> {
    /// The walk ends with this handler, or with none.
    Done(Option<T>),
    /// The walk goes on forever: a character has no child to go to.
    Stuck,
}

impl<T> Node<T> {
    pub closed spec fn children_view(&self) -> Seq<(NodeMeta, Node<T>)> {
        self.children@
    }

    pub closed spec fn handler_view(&self) -> Option<T> {
        self.handler
    }

    pub closed spec fn dynamic_view(&self) -> Option<(Seq<char>, Node<T>)> {
        match self.dynamic_child {
            Some((l, d)) => Some((l@, *d)),
            None => None,
        }
    }

    /// Walks `parts` from position `i` down from `node`. `pending` is the
    /// dynamic child met most recently since the last `/`.
    ///
    /// At a `/` the pending dynamic child is dropped; then a dynamic child
    /// of the current node becomes pending; then the walk goes to the
    /// child for the character. At the end the answer is the current
    /// node's handler, or else the pending node's, and nothing when no
    /// dynamic child is pending. A `{name}` part ends the walk with nothing.
    pub open spec fn spec_walk(node: Node<T>, parts: Seq<RoutePartView>, i: int, pending: Option<Node<T>>) -> WalkOutcome<T>
        decreases parts.len() - i,
    {
        if i < 0 || i >= parts.len() {
            match pending {
                None => WalkOutcome::Done(None),
                Some(d) => WalkOutcome::Done(
                    match node.handler_view() {
                        Some(h) => Some(h),
                        None => d.handler_view(),
                    },
                ),
            }
        } else {
            match parts[i] {
                RoutePartView::Dynamic(_) => WalkOutcome::Done(None),
                RoutePartView::Static(meta) => {
                    let p1 = if meta == NodeMeta::Slash {
                        None
                    } else {
                        pending
                    };
                    let p2 = match node.dynamic_view() {
                        Some((_, d)) => Some(d),
                        None => p1,
                    };
                    match child_for(node.children_view(), meta, 0) {
                        Some(c) => Self::spec_walk(c, parts, i + 1, p2),
                        None => WalkOutcome::Stuck,
                    }
                },
            }
        }
    }

    /// An empty node.
    pub fn new() -> (r: Self)
        ensures
            r.children_view().len() == 0,
            r.handler_view() is None,
            r.dynamic_view() is None,
    {
        Node { children: Vec::new(), handler: None, dynamic_child: None }
    }

    pub(crate) fn set_handler(&mut self, handler: T)
        ensures
            final(self).handler_view() == Some(handler),
            final(self).children_view() == old(self).children_view(),
            final(self).dynamic_view() == old(self).dynamic_view(),
    {
        self.handler = Some(handler);
    }

    pub(crate) fn children_ref(&self) -> (r: &Vec<(NodeMeta, Node<T>)>)
        ensures
            r@ == self.children_view(),
    {
        &self.children
    }

    pub(crate) fn children_mut(&mut self) -> (r: &mut Vec<(NodeMeta, Node<T>)>)
        ensures
            (*r)@ == old(self).children_view(),
            final(self).children_view() == final(r)@,
            final(self).handler_view() == old(self).handler_view(),
            final(self).dynamic_view() == old(self).dynamic_view(),
    {
        &mut self.children
    }

    pub(crate) fn dynamic_child_ref(&self) -> (r: &Option<(String, Box<Node<T>>)>)
        ensures
            self.dynamic_view() == match *r {
                Some((l, d)) => Some((l@, *d)),
                None => None,
            },
    {
        &self.dynamic_child
    }

    pub(crate) fn dynamic_child_mut(&mut self) -> (r: &mut Option<(String, Box<Node<T>>)>)
        ensures
            old(self).dynamic_view() == match *r {
                Some((l, d)) => Some((l@, *d)),
                None => None,
            },
            final(self).dynamic_view() == match *final(r) {
                Some((l, d)) => Some((l@, *d)),
                None => None,
            },
            final(self).handler_view() == old(self).handler_view(),
            final(self).children_view() == old(self).children_view(),
    {
        &mut self.dynamic_child
    }

    /// Reads a path as parts: `/`, `{name}` parts, and single characters.
    pub fn str_registrable(&self, path: &str) -> (r: Vec<RoutePart>)
        requires
            spec_registrable(path@, 0) is Some,
        ensures
            r@.map_values(|p: RoutePart| p@) == spec_registrable(path@, 0)->0,
    {
        let ghost s = path@;
        let n = path.unicode_len();
        let mut nodes: Vec<RoutePart> = Vec::new();
        let mut index: usize = 0;
        while index < n
            invariant
                n == s.len(),
                s == path@,
                index <= n,
                spec_registrable(s, index as int) is Some,
                nodes@.map_values(|p: RoutePart| p@) + spec_registrable(s, index as int)->0 =~= spec_registrable(s, 0)->0,
            decreases n - index,
        {
            let c = path.get_char(index);
            let ghost before = nodes@.map_values(|p: RoutePart| p@);
            if c == '/' {
                nodes.push(RoutePart::Static(NodeMeta::Slash));
                assert(nodes@.map_values(|p: RoutePart| p@) =~= before.push(RoutePartView::Static(NodeMeta::Slash)));
                index = index + 1;
            } else if c == '{' {
                proof {
                    lemma_next_close(s, index as int);
                }
                let mut e = index;
                while path.get_char(e) != '}'
                    invariant
                        index <= e < n,
                        n == s.len(),
                        s == path@,
                        next_close(s, index as int) == next_close(s, e as int),
                        next_close(s, index as int) is Some,
                    decreases n - e,
                {
                    proof {
                        lemma_next_close(s, e as int);
                    }
                    e = e + 1;
                    proof {
                        lemma_next_close(s, e as int);
                    }
                }
                let name = String::from_str(path.substring_char(index + 1, e));
                nodes.push(RoutePart::Dynamic(name));
                assert(nodes@.map_values(|p: RoutePart| p@) =~= before.push(
                    RoutePartView::Dynamic(s.subrange(index + 1, e as int)),
                ));
                index = e + 1;
            } else {
                nodes.push(RoutePart::Static(NodeMeta::StaticSegmentPart(c)));
                assert(nodes@.map_values(|p: RoutePart| p@) =~= before.push(
                    RoutePartView::Static(NodeMeta::StaticSegmentPart(c)),
                ));
                index = index + 1;
            }
        }
        assert(nodes@.map_values(|p: RoutePart| p@) =~= spec_registrable(s, 0)->0);
        nodes
    }

    /// Looks `path` up: the handler the walk of [`Node::spec_walk`] ends with.
    pub fn internal_at(&self, path: &str) -> (r: Option<&T>)
        requires
            spec_registrable(path@, 0) is Some,
            Self::spec_walk(*self, spec_registrable(path@, 0)->0, 0, None) is Done,
        ensures
            Self::spec_walk(*self, spec_registrable(path@, 0)->0, 0, None) == WalkOutcome::Done(
                match r {
                    Some(h) => Some(*h),
                    None => None,
                },
            ),
    {
        let guidance = self.str_registrable(path);
        let ghost g = guidance@.map_values(|p: RoutePart| p@);
        let ghost target = Self::spec_walk(*self, g, 0, None);
        let mut node = self;
        let mut index: usize = 0;
        let mut possible_dynamic_node: Option<&Node<T>> = None;
        while index < guidance.len()
            invariant
                g == guidance@.map_values(|p: RoutePart| p@),
                index <= guidance@.len(),
                target is Done,
                g == spec_registrable(path@, 0)->0,
                target == Self::spec_walk(*self, g, 0, None),
                target == Self::spec_walk(
                    *node,
                    g,
                    index as int,
                    match possible_dynamic_node {
                        Some(d) => Some(*d),
                        None => None,
                    },
                ),
            decreases guidance@.len() - index,
        {
            assert(g[index as int] == guidance@[index as int]@);
            let node_meta = match &guidance[index] {
                RoutePart::Static(thing) => *thing,
                RoutePart::Dynamic(_) => return None,
            };
            if node_meta == NodeMeta::Slash {
                possible_dynamic_node = None;
            }
            if let Some((_label, dynamic_child)) = &node.dynamic_child {
                possible_dynamic_node = Some(&**dynamic_child);
            }
            let ghost cs = node.children@;
            let mut j: usize = 0;
            let mut next: Option<&Node<T>> = None;
            while j < node.children.len() && next.is_none()
                invariant
                    cs == node.children@,
                    j <= cs.len(),
                    next is None ==> child_for(cs, node_meta, 0) == child_for(cs, node_meta, j as int),
                    next matches Some(c) ==> child_for(cs, node_meta, 0) == Some(*c),
                decreases cs.len() - j + (if next is None { 1int } else { 0int }),
            {
                if node.children[j].0 == node_meta {
                    next = Some(&node.children[j].1);
                } else {
                    j = j + 1;
                }
            }
            match next {
                Some(static_child) => {
                    node = static_child;
                    index = index + 1;
                },
                None => {
                    // a missing child is where the walk would go on forever
                    proof {
                        assert(child_for(cs, node_meta, j as int) is None);
                        assert(false);
                    }
                    return None;
                },
            }
        }
        match possible_dynamic_node {
            None => None,
            Some(d) => match &node.handler {
                Some(h) => Some(h),
                None => match &d.handler {
                    Some(h) => Some(h),
                    None => None,
                },
            },
        }
    }

    /// Looks `path` up; see [`Node::internal_at`].
    pub fn at(&self, path: &str) -> (r: Option<&T>)
        requires
            spec_registrable(path@, 0) is Some,
            Self::spec_walk(*self, spec_registrable(path@, 0)->0, 0, None) is Done,
        ensures
            Self::spec_walk(*self, spec_registrable(path@, 0)->0, 0, None) == WalkOutcome::Done(
                match r {
                    Some(h) => Some(*h),
                    None => None,
                },
            ),
    {
        self.internal_at(path)
    }
}


/// The first position of a child for `meta`.
pub open spec fn child_index<T>(children: Seq<(NodeMeta, Node<T>)>, meta: NodeMeta, from: int) -> Option<int>
    decreases children.len() - from,
{
    if from < 0 || from >= children.len() {
        None
    } else if children[from].0 == meta {
        Some(from)
    } else {
        child_index(children, meta, from + 1)
    }
}

proof fn lemma_child_index<T>(children: Seq<(NodeMeta, Node<T>)>, meta: NodeMeta, from: int)
    requires
        0 <= from,
    ensures
        child_for(children, meta, from) == match child_index(children, meta, from) {
            Some(k) => Some(children[k].1),
            None => None,
        },
        child_index(children, meta, from) matches Some(k) ==> from <= k < children.len() && children[k].0 == meta,
    decreases children.len() - from,
{
    if from < children.len() && children[from].0 != meta {
        lemma_child_index(children, meta, from + 1);
    }
}

proof fn lemma_child_index_same_metas<T>(
    a: Seq<(NodeMeta, Node<T>)>,
    b: Seq<(NodeMeta, Node<T>)>,
    meta: NodeMeta,
    from: int,
)
    requires
        a.len() == b.len(),
        forall|j: int| 0 <= j < a.len() ==> (#[trigger] a[j]).0 == b[j].0,
    ensures
        child_index(a, meta, from) == child_index(b, meta, from),
    decreases a.len() - from,
{
    if 0 <= from < a.len() {
        assert(a[from].0 == b[from].0);
        lemma_child_index_same_metas(a, b, meta, from + 1);
    }
}

impl<T> Node<T> {
    /// Where a walk from `node` at step `i` finds its handler, before a
    /// dynamic child pending from above is counted: `(true, h)` when the
    /// answer is settled at or below `node`, and `(false, h)` when it
    /// waits on what is pending from above, `h` being then the handler of
    /// the node the walk ends at.
    pub open spec fn spec_find(node: Node<T>, parts: Seq<RoutePartView>, i: int) -> (bool, Option<T>)
        decreases parts.len() - i,
    {
        if i < 0 || i >= parts.len() {
            (false, node.handler_view())
        } else {
            match parts[i] {
                RoutePartView::Dynamic(_) => (true, None),
                RoutePartView::Static(m) => match child_for(node.children_view(), m, 0) {
                    None => (true, None),
                    Some(c) => {
                        let (d, h) = Self::spec_find(c, parts, i + 1);
                        if d {
                            (true, h)
                        } else {
                            match node.dynamic_view() {
                                Some((_, dn)) => (true, if h is Some {
                                    h
                                } else {
                                    dn.handler_view()
                                }),
                                None => if m == NodeMeta::Slash {
                                    (true, None)
                                } else {
                                    (false, h)
                                },
                            }
                        }
                    },
                },
            }
        }
    }

    /// `new` is `old` with the handler that a walk from step `i` answers
    /// with set to `w`, and nothing else changed.
    pub open spec fn spec_written(old: Node<T>, new: Node<T>, parts: Seq<RoutePartView>, i: int, w: T) -> bool
        decreases parts.len() - i,
    {
        if i < 0 || i >= parts.len() {
            &&& new.children_view() == old.children_view()
            &&& new.dynamic_view() == old.dynamic_view()
            &&& new.handler_view() == Some(w)
        } else {
            match parts[i] {
                RoutePartView::Dynamic(_) => new == old,
                RoutePartView::Static(m) => match child_index(old.children_view(), m, 0) {
                    None => new == old,
                    Some(k) => {
                        let c = old.children_view()[k].1;
                        let (d, h) = Self::spec_find(c, parts, i + 1);
                        if d || (h is Some && (old.dynamic_view() is Some || m != NodeMeta::Slash)) {
                            &&& new.handler_view() == old.handler_view()
                            &&& new.dynamic_view() == old.dynamic_view()
                            &&& new.children_view().len() == old.children_view().len()
                            &&& forall|j: int|
                                0 <= j < old.children_view().len() && j != k ==> #[trigger] new.children_view()[j]
                                    == old.children_view()[j]
                            &&& new.children_view()[k].0 == m
                            &&& Self::spec_written(c, new.children_view()[k].1, parts, i + 1, w)
                        } else {
                            match old.dynamic_view() {
                                Some((l, dn)) => {
                                    &&& new.handler_view() == old.handler_view()
                                    &&& new.children_view() == old.children_view()
                                    &&& new.dynamic_view() matches Some((l2, dn2))
                                    &&& l2 == l
                                    &&& dn2.children_view() == dn.children_view()
                                    &&& dn2.dynamic_view() == dn.dynamic_view()
                                    &&& dn2.handler_view() == Some(w)
                                },
                                None => new == old,
                            }
                        }
                    },
                },
            }
        }
    }

    /// Whether a walk goes on forever does not depend on what is pending.
    proof fn lemma_done_any_pending(node: Node<T>, parts: Seq<RoutePartView>, i: int, p: Option<Node<T>>, q: Option<Node<T>>)
        requires
            Self::spec_walk(node, parts, i, p) is Done,
        ensures
            Self::spec_walk(node, parts, i, q) is Done,
        decreases parts.len() - i,
    {
        if 0 <= i < parts.len() {
            if let RoutePartView::Static(meta) = parts[i] {
                let p1 = if meta == NodeMeta::Slash { None } else { p };
                let p2 = match node.dynamic_view() { Some((_, d)) => Some(d), None => p1 };
                let q1 = if meta == NodeMeta::Slash { None } else { q };
                let q2 = match node.dynamic_view() { Some((_, d)) => Some(d), None => q1 };
                if let Some(c) = child_for(node.children_view(), meta, 0) {
                    Self::lemma_done_any_pending(c, parts, i + 1, p2, q2);
                }
            }
        }
    }

    /// A walk that does not go on forever answers with what
    /// [`Node::spec_find`] settles, or with what is pending from above.
    proof fn lemma_find_walk(node: Node<T>, parts: Seq<RoutePartView>, i: int, pending: Option<Node<T>>)
        requires
            0 <= i,
            Self::spec_walk(node, parts, i, pending) is Done,
        ensures
            Self::spec_walk(node, parts, i, pending) == WalkOutcome::Done(
                if Self::spec_find(node, parts, i).0 {
                    Self::spec_find(node, parts, i).1
                } else {
                    match pending {
                        None => None,
                        Some(pd) => if Self::spec_find(node, parts, i).1 is Some {
                            Self::spec_find(node, parts, i).1
                        } else {
                            pd.handler_view()
                        },
                    }
                },
            ),
        decreases parts.len() - i,
    {
        if i < parts.len() {
            if let RoutePartView::Static(meta) = parts[i] {
                let p1 = if meta == NodeMeta::Slash { None } else { pending };
                let p2 = match node.dynamic_view() { Some((_, d)) => Some(d), None => p1 };
                if let Some(c) = child_for(node.children_view(), meta, 0) {
                    Self::lemma_find_walk(c, parts, i + 1, p2);
                }
            }
        }
    }

    /// Writing the handler a walk settles on keeps the walk's shape, and the
    /// walk then settles on the written handler.
    proof fn lemma_written_find(old: Node<T>, new: Node<T>, parts: Seq<RoutePartView>, i: int, w: T, p: Option<Node<T>>, q: Option<Node<T>>)
        requires
            0 <= i,
            Self::spec_written(old, new, parts, i, w),
            Self::spec_find(old, parts, i).1 is Some,
            Self::spec_walk(old, parts, i, p) is Done,
        ensures
            Self::spec_find(new, parts, i) == (Self::spec_find(old, parts, i).0, Some(w)),
            Self::spec_walk(new, parts, i, q) is Done,
        decreases parts.len() - i,
    {
        if i < parts.len() {
            if let RoutePartView::Static(m) = parts[i] {
                let oc = old.children_view();
                let nc = new.children_view();
                lemma_child_index(oc, m, 0);
                lemma_child_index(nc, m, 0);
                let k = child_index(oc, m, 0)->0;
                let c = oc[k].1;
                let (d, h) = Self::spec_find(c, parts, i + 1);
                let p1 = if m == NodeMeta::Slash { None } else { p };
                let p2 = match old.dynamic_view() { Some((_, dd)) => Some(dd), None => p1 };
                let q1 = if m == NodeMeta::Slash { None } else { q };
                let q2 = match new.dynamic_view() { Some((_, dd)) => Some(dd), None => q1 };
                if d || (h is Some && (old.dynamic_view() is Some || m != NodeMeta::Slash)) {
                    assert forall|j: int| 0 <= j < oc.len() implies (#[trigger] oc[j]).0 == nc[j].0 by {
                        if j != k {
                            assert(nc[j] == oc[j]);
                        }
                    }
                    lemma_child_index_same_metas(oc, nc, m, 0);
                    Self::lemma_written_find(c, nc[k].1, parts, i + 1, w, p2, q2);
                } else {
                    Self::lemma_done_any_pending(c, parts, i + 1, p2, q2);
                }
            }
        }
    }
}


impl<T> Node<T> {
    /// The position of the first child for `meta`, if any.
    fn child_position(&self, meta: NodeMeta) -> (r: Option<usize>)
        ensures
            match r {
                Some(k) => child_index(self.children_view(), meta, 0) == Some(k as int),
                None => child_index(self.children_view(), meta, 0) is None,
            },
    {
        let ghost cs = self.children@;
        let mut j: usize = 0;
        while j < self.children.len()
            invariant
                cs == self.children@,
                j <= cs.len(),
                child_index(cs, meta, 0) == child_index(cs, meta, j as int),
            decreases cs.len() - j,
        {
            if self.children[j].0 == meta {
                return Some(j);
            }
            j = j + 1;
        }
        None
    }

    /// Whether a walk from step `i` settles below this node, and whether
    /// the handler it ends with is there.
    fn find_shape(&self, parts: &Vec<RoutePart>, i: usize) -> (r: (bool, bool))
        requires
            i <= parts@.len(),
        ensures
            r.0 == Self::spec_find(*self, parts@.map_values(|p: RoutePart| p@), i as int).0,
            r.1 == Self::spec_find(*self, parts@.map_values(|p: RoutePart| p@), i as int).1 is Some,
        decreases parts@.len() - i,
    {
        let ghost g = parts@.map_values(|p: RoutePart| p@);
        if i >= parts.len() {
            return (false, self.handler.is_some());
        }
        assert(g[i as int] == parts@[i as int]@);
        let m = match &parts[i] {
            RoutePart::Dynamic(_) => return (true, false),
            RoutePart::Static(m) => *m,
        };
        proof {
            lemma_child_index(self.children_view(), m, 0);
        }
        match self.child_position(m) {
            None => (true, false),
            Some(k) => {
                let (d, has) = self.children[k].1.find_shape(parts, i + 1);
                if d {
                    (true, has)
                } else if self.dynamic_child.is_some() {
                    if has {
                        (true, true)
                    } else {
                        match &self.dynamic_child {
                            Some((_, dn)) => (true, dn.handler.is_some()),
                            None => (true, false),
                        }
                    }
                } else if m == NodeMeta::Slash {
                    (true, false)
                } else {
                    (false, has)
                }
            },
        }
    }

    /// A mutable reference to the handler that a walk from step `i`
    /// settles on below this node, when there is one.
    fn handler_mut(&mut self, parts: &Vec<RoutePart>, i: usize) -> (r: Option<&mut T>)
        requires
            i <= parts@.len(),
            Self::spec_find(*old(self), parts@.map_values(|p: RoutePart| p@), i as int).1 is Some,
        ensures
            r matches Some(x) && Self::spec_find(*old(self), parts@.map_values(|p: RoutePart| p@), i as int).1
                == Some(*x) && Self::spec_written(
                *old(self),
                *final(self),
                parts@.map_values(|p: RoutePart| p@),
                i as int,
                *final(x),
            ),
        decreases parts@.len() - i,
    {
        let ghost g = parts@.map_values(|p: RoutePart| p@);
        if i >= parts.len() {
            return self.handler.as_mut();
        }
        assert(g[i as int] == parts@[i as int]@);
        let m = match &parts[i] {
            RoutePart::Dynamic(_) => return None,
            RoutePart::Static(m) => *m,
        };
        proof {
            lemma_child_index(self.children_view(), m, 0);
        }
        match self.child_position(m) {
            None => None,
            Some(k) => {
                let (d, has) = self.children[k].1.find_shape(parts, i + 1);
                let has_dyn = self.dynamic_child.is_some();
                if d || (has && (has_dyn || m != NodeMeta::Slash)) {
                    let entry = &mut self.children[k];
                    entry.1.handler_mut(parts, i + 1)
                } else {
                    match &mut self.dynamic_child {
                        Some((_, dn)) => dn.handler.as_mut(),
                        None => None,
                    }
                }
            },
        }
    }

    /// Looks `path` up like [`Node::at`], giving the handler so that it can
    /// be changed; a lookup afterwards answers with what was written.
    pub fn at_mut(&mut self, path: &str) -> (r: Option<&mut T>)
        requires
            spec_registrable(path@, 0) is Some,
            Self::spec_walk(*old(self), spec_registrable(path@, 0)->0, 0, None) is Done,
        ensures
            match r {
                None => Self::spec_walk(*old(self), spec_registrable(path@, 0)->0, 0, None) == WalkOutcome::Done(
                    None::<T>,
                ) && *final(self) == *old(self),
                Some(x) => Self::spec_walk(*old(self), spec_registrable(path@, 0)->0, 0, None) == WalkOutcome::Done(
                    Some(*x),
                ) && Self::spec_written(*old(self), *final(self), spec_registrable(path@, 0)->0, 0, *final(x)),
            },
    {
        let guidance = self.str_registrable(path);
        let ghost g = guidance@.map_values(|p: RoutePart| p@);
        proof {
            Self::lemma_find_walk(*self, g, 0, None);
        }
        let (d, settled) = self.find_shape(&guidance, 0);
        if !d || !settled {
            return None;
        }
        self.handler_mut(&guidance, 0)
    }

    /// What is written through [`Node::at_mut`] is what a lookup of the
    /// same path then answers with.
    pub proof fn lemma_at_mut_reads_back(old: Node<T>, new: Node<T>, parts: Seq<RoutePartView>, v: T, w: T)
        requires
            Self::spec_walk(old, parts, 0, None) == WalkOutcome::Done(Some(v)),
            Self::spec_written(old, new, parts, 0, w),
        ensures
            Self::spec_walk(new, parts, 0, None) == WalkOutcome::Done(Some(w)),
    {
        Self::lemma_find_walk(old, parts, 0, None);
        Self::lemma_written_find(old, new, parts, 0, w, None, None);
        Self::lemma_find_walk(new, parts, 0, None);
    }
}

} // verus!
