use vstd::prelude::*;

use crate::route_http::status::{status_number, StatusCode};
use crate::text::{
    attribute_set, concat, decimal, decimal_u128, pairs_view, str_eq, unique_names,
};

verus! {

/// A response: a status, headers and a text body.
#[derive(Debug)]
pub struct Response {
    pub status: StatusCode,
    /// (name, value) pairs, in the order the names were first set.
    pub headers: Vec<(String, String)>,
    pub body: String,
}

/// What a [`Response`] holds.
pub struct ResponseView {
    pub status: StatusCode,
    pub headers: Seq<(Seq<char>, Seq<char>)>,
    pub body: Seq<char>,
}

impl View for Response {
    type V = ResponseView;

    open spec fn view(&self) -> ResponseView {
        ResponseView { status: self.status, headers: pairs_view(self.headers@), body: self.body@ }
    }
}

/// Whether some pair has the name `k`.
pub open spec fn has_name(hs: Seq<(Seq<char>, Seq<char>)>, k: Seq<char>) -> bool {
    exists|i: int| 0 <= i < hs.len() && hs[i].0 == k
}

/// The pairs after one pass that puts `(k, v)` in place of the first pair
/// named `k` and drops every later pair of that name.
pub open spec fn replace_first(hs: Seq<(Seq<char>, Seq<char>)>, k: Seq<char>, v: Seq<char>) -> Seq<(Seq<char>, Seq<char>)>
    decreases hs.len(),
{
    if hs.len() == 0 {
        seq![]
    } else {
        let p = replace_first(hs.drop_last(), k, v);
        if hs.last().0 == k {
            if has_name(hs.drop_last(), k) {
                p
            } else {
                p.push((k, v))
            }
        } else {
            p.push(hs.last())
        }
    }
}

/// The headers after setting `k` to `v`, as `HeaderMap::insert` does: the
/// first header of that name takes the value in place and the others of
/// that name go; without one the header is added last.
pub open spec fn header_insert(hs: Seq<(Seq<char>, Seq<char>)>, k: Seq<char>, v: Seq<char>) -> Seq<(Seq<char>, Seq<char>)> {
    if has_name(hs, k) {
        replace_first(hs, k, v)
    } else {
        hs.push((k, v))
    }
}

proof fn lemma_replace_first_unique(hs: Seq<(Seq<char>, Seq<char>)>, k: Seq<char>, v: Seq<char>, i: int, j: int)
    requires
        unique_names(hs),
        0 <= i < hs.len(),
        hs[i].0 == k,
        0 <= j <= hs.len(),
    ensures
        replace_first(hs.take(j), k, v) == (if j <= i {
            hs.take(j)
        } else {
            hs.take(j).update(i, (k, v))
        }),
    decreases j,
{
    if j > 0 {
        lemma_replace_first_unique(hs, k, v, i, j - 1);
        let t = hs.take(j);
        assert(t.drop_last() =~= hs.take(j - 1));
        assert(t.last() == hs[j - 1]);
        if j - 1 == i {
            assert(!has_name(hs.take(j - 1), k)) by {
                let h = hs.take(j - 1);
                if has_name(h, k) {
                    let a = choose|a: int| 0 <= a < h.len() && #[trigger] h[a].0 == k;
                    assert(hs[a].0 == hs[i].0);
                }
            }
            assert(hs.take(j - 1).push((k, v)) =~= t.update(i, (k, v)));
        } else if j - 1 < i {
            assert(hs[j - 1].0 != k);
            assert(hs.take(j - 1).push(hs[j - 1]) =~= t);
        } else {
            assert(hs[j - 1].0 != k);
            assert(hs.take(j - 1).update(i, (k, v)).push(hs[j - 1]) =~= t.update(i, (k, v)));
        }
    } else {
        assert(hs.take(0) =~= Seq::<(Seq<char>, Seq<char>)>::empty());
    }
}

/// On headers whose names are distinct, setting a header replaces it in
/// place or adds it last, and the names stay distinct.
proof fn lemma_replace_first_no_name(hs: Seq<(Seq<char>, Seq<char>)>, k: Seq<char>, v: Seq<char>)
    requires
        !has_name(hs, k),
    ensures
        replace_first(hs, k, v) == hs,
    decreases hs.len(),
{
    if hs.len() > 0 {
        assert(!has_name(hs.drop_last(), k)) by {
            let h = hs.drop_last();
            if has_name(h, k) {
                let a = choose|a: int| 0 <= a < h.len() && #[trigger] h[a].0 == k;
                assert(hs[a].0 == k);
            }
        }
        lemma_replace_first_no_name(hs.drop_last(), k, v);
        assert(hs.last().0 != k) by {
            if hs.last().0 == k {
                assert(hs[hs.len() - 1].0 == k);
            }
        }
        assert(hs.drop_last().push(hs.last()) =~= hs);
    }
}

pub proof fn lemma_header_insert_unique(hs: Seq<(Seq<char>, Seq<char>)>, k: Seq<char>, v: Seq<char>)
    requires
        unique_names(hs),
    ensures
        header_insert(hs, k, v) == attribute_set(hs, k, v),
        unique_names(header_insert(hs, k, v)),
{
    if has_name(hs, k) {
        let i = choose|i: int| 0 <= i < hs.len() && #[trigger] hs[i].0 == k;
        lemma_replace_first_unique(hs, k, v, i, hs.len() as int);
        assert(hs.take(hs.len() as int) =~= hs);
        let r = hs.update(i, (k, v));
        assert forall|a: int, b: int| 0 <= a < b < r.len() implies r[a].0 != r[b].0 by {
            if a != i && b != i {
                assert(r[a] == hs[a] && r[b] == hs[b]);
            } else if a == i {
                assert(r[b] == hs[b]);
            } else {
                assert(r[a] == hs[a]);
            }
        }
    } else {
        let r = hs.push((k, v));
        assert forall|a: int, b: int| 0 <= a < b < r.len() implies r[a].0 != r[b].0 by {
            if b < hs.len() {
                assert(r[a] == hs[a] && r[b] == hs[b]);
            } else {
                assert(r[a] == hs[a]);
            }
        }
    }
}

/// A character that a header value may hold: a space or a tab, or any
/// character from `!` on but DEL.
pub open spec fn is_header_value_char(c: char) -> bool {
    (c as u32 >= 32 && c as u32 != 127) || c == '\t'
}

/// A text that can be a header value.
pub open spec fn is_header_value(s: Seq<char>) -> bool {
    forall|i: int| 0 <= i < s.len() ==> is_header_value_char(#[trigger] s[i])
}

/// A character of visible ASCII, a space or a tab.
pub open spec fn is_visible_ascii_char(c: char) -> bool {
    (c as u32 >= 32 && c as u32 <= 126) || c == '\t'
}

pub open spec fn is_visible_ascii(s: Seq<char>) -> bool {
    forall|i: int| 0 <= i < s.len() ==> is_visible_ascii_char(#[trigger] s[i])
}

/// `HTTP/1.1 200 200\r\n`: the status number twice.
pub open spec fn status_line(s: StatusCode) -> Seq<char> {
    "HTTP/1.1 "@ + decimal(status_number(s) as nat) + seq![' '] + decimal(status_number(s) as nat) + "\r\n"@
}

/// `name: value\r\n` for each header.
pub open spec fn header_lines(hs: Seq<(Seq<char>, Seq<char>)>) -> Seq<char> {
    concat(hs.map_values(|h: (Seq<char>, Seq<char>)| h.0 + ": "@ + h.1 + "\r\n"@))
}

/// Headers can be written out when no name occurs twice and every value
/// is visible ASCII.
pub open spec fn writable_headers(hs: Seq<(Seq<char>, Seq<char>)>) -> bool {
    &&& unique_names(hs)
    &&& forall|i: int| 0 <= i < hs.len() ==> is_visible_ascii(#[trigger] hs[i].1)
}

/// A response can be written out when its headers can.
pub open spec fn can_write(r: Response) -> bool {
    writable_headers(pairs_view(r.headers@))
}

/// Whether `s` can be a header value.
pub fn check_header_value(s: &str) -> (r: bool)
    ensures
        r == is_header_value(s@),
{
    let n = s.unicode_len();
    let mut i: usize = 0;
    while i < n
        invariant
            n == s@.len(),
            i <= n,
            forall|k: int| 0 <= k < i ==> is_header_value_char(#[trigger] s@[k]),
        decreases n - i,
    {
        let c = s.get_char(i);
        if !((c as u32 >= 32 && c as u32 != 127) || c == '\t') {
            assert(!is_header_value_char(s@[i as int]));
            return false;
        }
        i = i + 1;
    }
    true
}

/// Whether `s` is visible ASCII (spaces and tabs included).
pub fn check_visible_ascii(s: &str) -> (r: bool)
    ensures
        r == is_visible_ascii(s@),
{
    let n = s.unicode_len();
    let mut i: usize = 0;
    while i < n
        invariant
            n == s@.len(),
            i <= n,
            forall|k: int| 0 <= k < i ==> is_visible_ascii_char(#[trigger] s@[k]),
        decreases n - i,
    {
        let c = s.get_char(i);
        if !((c as u32 >= 32 && c as u32 <= 126) || c == '\t') {
            assert(!is_visible_ascii_char(s@[i as int]));
            return false;
        }
        i = i + 1;
    }
    true
}

/// Whether no name occurs twice in a list of pairs.
pub fn check_unique_names(pairs: &Vec<(String, String)>) -> (r: bool)
    ensures
        r == unique_names(pairs_view(pairs@)),
{
    let ghost pv = pairs_view(pairs@);
    let n = pairs.len();
    let mut i: usize = 0;
    while i < n
        invariant
            n == pairs@.len(),
            pv == pairs_view(pairs@),
            i <= n,
            forall|a: int, b: int| 0 <= a < b < n && a < i ==> pv[a].0 != pv[b].0,
        decreases n - i,
    {
        let mut j: usize = i + 1;
        while j < n
            invariant
                n == pairs@.len(),
                pv == pairs_view(pairs@),
                i < n,
                i + 1 <= j <= n,
                forall|a: int, b: int| 0 <= a < b < n && a < i ==> pv[a].0 != pv[b].0,
                forall|b: int| i < b < j ==> pv[i as int].0 != pv[b].0,
            decreases n - j,
        {
            if str_eq(pairs[i].0.as_str(), pairs[j].0.as_str()) {
                assert(pv[i as int].0 == pv[j as int].0);
                return false;
            }
            j = j + 1;
        }
        i = i + 1;
    }
    true
}

impl Response {
    /// A `200` response with this body and no headers.
    pub fn new(body: String) -> (r: Self)
        ensures
            r.status == StatusCode::OK,
            r.headers@.len() == 0,
            r.body == body,
    {
        Response { status: StatusCode::OK, headers: Vec::new(), body }
    }

    /// A response with this status, no headers and an empty body.
    pub fn with_status(status: StatusCode) -> (r: Self)
        ensures
            r.status == status,
            r.headers@.len() == 0,
            r.body@.len() == 0,
    {
        Response { status, headers: Vec::new(), body: String::new() }
    }

    /// Sets a header, as `HeaderMap::insert` does: the first header of that
    /// name takes the new value in place and any later ones of that name
    /// go; without one the header is added last.
    pub fn insert_header(&mut self, name: String, value: String)
        ensures
            final(self).status == old(self).status,
            final(self).body == old(self).body,
            pairs_view(final(self).headers@) == header_insert(pairs_view(old(self).headers@), name@, value@),
            unique_names(pairs_view(old(self).headers@)) ==> unique_names(pairs_view(final(self).headers@))
                && pairs_view(final(self).headers@) == attribute_set(pairs_view(old(self).headers@), name@, value@),
    {
        let ghost hv = pairs_view(self.headers@);
        let ghost kv = name@;
        let ghost vv = value@;
        let mut old_headers: Vec<(String, String)> = Vec::new();
        std::mem::swap(&mut old_headers, &mut self.headers);
        let mut out: Vec<(String, String)> = Vec::new();
        let mut slot: Option<String> = Some(value);
        let n = old_headers.len();
        let mut i: usize = 0;
        assert(hv.take(0) =~= Seq::<(Seq<char>, Seq<char>)>::empty());
        while i < n
            invariant
                n == old_headers@.len(),
                i <= n,
                hv == pairs_view(old_headers@),
                kv == name@,
                pairs_view(out@) == replace_first(hv.take(i as int), kv, vv),
                slot is Some <==> !has_name(hv.take(i as int), kv),
                slot matches Some(x) ==> x@ == vv,
            decreases n - i,
        {
            let ghost t = hv.take(i + 1);
            assert(t.drop_last() =~= hv.take(i as int));
            assert(t.last() == hv[i as int]);
            let ghost before = pairs_view(out@);
            assert(has_name(t, kv) == (has_name(hv.take(i as int), kv) || hv[i as int].0 == kv)) by {
                if has_name(t, kv) {
                    let a = choose|a: int| 0 <= a < t.len() && #[trigger] t[a].0 == kv;
                    if a < i {
                        assert(hv.take(i as int)[a] == t[a]);
                    }
                }
                let h = hv.take(i as int);
                if has_name(h, kv) {
                    let a = choose|a: int| 0 <= a < h.len() && #[trigger] h[a].0 == kv;
                    assert(t[a] == h[a]);
                }
                if hv[i as int].0 == kv {
                    assert(t[i as int] == hv[i as int]);
                }
            }
            assert(hv[i as int] == (old_headers@[i as int].0@, old_headers@[i as int].1@));
            if str_eq(old_headers[i].0.as_str(), name.as_str()) {
                match slot {
                    Some(v) => {
                        out.push((name.clone(), v));
                        slot = None;
                        assert(pairs_view(out@) =~= before.push((kv, vv)));
                    },
                    None => {},
                }
            } else {
                let k = old_headers[i].0.clone();
                let v = old_headers[i].1.clone();
                out.push((k, v));
                assert(pairs_view(out@) =~= before.push(hv[i as int]));
            }
            i = i + 1;
        }
        assert(hv.take(n as int) =~= hv);
        match slot {
            Some(v) => {
                let ghost before = pairs_view(out@);
                out.push((name, v));
                proof {
                    lemma_replace_first_no_name(hv, kv, vv);
                }
                assert(pairs_view(out@) =~= before.push((kv, vv)));
            },
            None => {},
        }
        self.headers = out;
        proof {
            if unique_names(hv) {
                lemma_header_insert_unique(hv, kv, vv);
            }
        }
    }

    /// The text that starts the response on the wire: the status line,
    /// then a line for each header; nothing when the response cannot be
    /// written (a header name twice, or a value that is not visible
    /// ASCII).
    pub fn head_text(&self) -> (r: Option<String>)
        ensures
            match r {
                Some(t) => can_write(*self) && t@ == status_line(self.status) + header_lines(pairs_view(self.headers@)),
                None => !can_write(*self),
            },
    {
        if !check_unique_names(&self.headers) {
            return None;
        }
        let ghost hv = pairs_view(self.headers@);
        let ghost lines = hv.map_values(|h: (Seq<char>, Seq<char>)| h.0 + ": "@ + h.1 + "\r\n"@);
        let number = self.status.as_u16();
        let digits = decimal_u128(number as u128);
        let mut out = String::from_str("HTTP/1.1 ");
        out.append(digits.as_str());
        out.append(" ");
        out.append(digits.as_str());
        out.append("\r\n");
        proof {
            reveal_strlit(" ");
            assert(out@ =~= status_line(self.status));
        }
        let ghost start = out@;
        let n = self.headers.len();
        let mut i: usize = 0;
        while i < n
            invariant
                n == self.headers@.len(),
                i <= n,
                hv == pairs_view(self.headers@),
                lines == hv.map_values(|h: (Seq<char>, Seq<char>)| h.0 + ": "@ + h.1 + "\r\n"@),
                out@ == start + concat(lines.take(i as int)),
                forall|k: int| 0 <= k < i ==> is_visible_ascii(#[trigger] hv[k].1),
            decreases n - i,
        {
            if !check_visible_ascii(self.headers[i].1.as_str()) {
                assert(!is_visible_ascii(hv[i as int].1));
                return None;
            }
            assert(lines.take(i + 1).drop_last() =~= lines.take(i as int));
            assert(lines.take(i + 1).last() == lines[i as int]);
            out.append(self.headers[i].0.as_str());
            out.append(": ");
            out.append(self.headers[i].1.as_str());
            out.append("\r\n");
            i = i + 1;
        }
        assert(lines.take(n as int) =~= lines);
        Some(out)
    }

    /// The whole response as it goes on the wire: the head, an empty line,
    /// then the body; nothing when the head cannot be written.
    pub fn to_text(&self) -> (r: Option<String>)
        ensures
            match r {
                Some(t) => can_write(*self) && t@ == status_line(self.status) + header_lines(pairs_view(self.headers@))
                    + "\r\n"@ + self.body@,
                None => !can_write(*self),
            },
    {
        match self.head_text() {
            None => None,
            Some(head) => {
                let mut out = head;
                out.append("\r\n");
                out.append(self.body.as_str());
                Some(out)
            },
        }
    }
}

} // verus!
