use std::collections::hash_map::DefaultHasher;
use std::hash::{Hash, Hasher};

use vstd::prelude::*;

use crate::route_html::css::{css_declarations, spec_css_declarations};
use crate::text::{concat, push_char, str_eq};

verus! {

/// A css rule for one generated class: its class name and its
/// declarations, in order.
#[derive(Clone, Debug, PartialEq, Eq, Hash)]
pub struct StyleRule {
    pub rule: String,
    pub styles: Vec<(String, String)>,
}

/// What a [`StyleRule`] holds.
pub struct StyleRuleView {
    pub rule: Seq<char>,
    pub styles: Seq<(Seq<char>, Seq<char>)>,
}

impl View for StyleRule {
    type V = StyleRuleView;

    open spec fn view(&self) -> StyleRuleView {
        StyleRuleView {
            rule: self.rule@,
            styles: self.styles@.map_values(|p: (String, String)| (p.0@, p.1@)),
        }
    }
}

/// The characters that base-62 digits are written with, in digit order.
pub open spec fn base62_alphabet() -> Seq<char> {
    "0123456789ABCDEFGHIJKLMNOPQRSTUVWXYZabcdefghijklmnopqrstuvwxyz"@
}

/// `n` in base 62, most significant digit first.
pub open spec fn spec_base62(n: nat) -> Seq<char>
    decreases n,
{
    if n < 62 {
        seq![base62_alphabet()[n as int]]
    } else {
        spec_base62(n / 62) + seq![base62_alphabet()[(n % 62) as int]]
    }
}

fn base62_digit(d: u64) -> (c: char)
    requires
        d < 62,
    ensures
        c == base62_alphabet()[d as int],
{
    let alphabet = "0123456789ABCDEFGHIJKLMNOPQRSTUVWXYZabcdefghijklmnopqrstuvwxyz";
    proof {
        reveal_strlit("0123456789ABCDEFGHIJKLMNOPQRSTUVWXYZabcdefghijklmnopqrstuvwxyz");
    }
    alphabet.get_char(d as usize)
}

fn push_base62(n: u64, res: &mut String)
    ensures
        final(res)@ == old(res)@ + spec_base62(n as nat),
    decreases n,
{
    if n < 62 {
        push_char(res, base62_digit(n));
    } else {
        push_base62(n / 62, res);
        push_char(res, base62_digit(n % 62));
    }
}

/// Writes `n` in base 62.
pub fn encode_base62(n: u64) -> (r: String)
    ensures
        r@ == spec_base62(n as nat),
{
    let mut res = String::new();
    push_base62(n, &mut res);
    assert(res@ =~= spec_base62(n as nat));
    res
}

/// `Hash::hash` of the declarations into `h`. Nothing is stated of the
/// hasher's state: std leaves the algorithm unspecified, and the bytes fed
/// depend on the platform (lengths are hashed as `usize`).
#[verifier::external_body]
fn hash_declarations(styles: &Vec<(String, String)>, h: &mut DefaultHasher) {
    styles.hash(h);
}

/// One declaration as css: `key:value;`.
pub open spec fn declaration_text(d: (Seq<char>, Seq<char>)) -> Seq<char> {
    d.0 + seq![':'] + d.1 + seq![';']
}

/// A rule as css: `.name{key:value;...}`.
pub open spec fn rule_text(r: StyleRuleView) -> Seq<char> {
    seq!['.'] + r.rule + seq!['{'] + concat(r.styles.map_values(|d: (Seq<char>, Seq<char>)| declaration_text(d)))
        + seq!['}']
}

impl StyleRule {
    /// The rule for `styles` whose class name is `key` in base 62.
    pub fn with_key(styles: Vec<(String, String)>, key: u64) -> (r: StyleRule)
        ensures
            r.styles == styles,
            r@.rule == spec_base62(key as nat),
    {
        StyleRule { rule: encode_base62(key), styles }
    }

    /// The rule for `styles`, named after a hash of them: the class name is
    /// the base-62 form of that hash.
    pub fn from_styles(styles: Vec<(String, String)>) -> (r: StyleRule)
        ensures
            r.styles == styles,
            exists|key: u64| r@.rule == spec_base62(key as nat),
    {
        let mut hasher = DefaultHasher::new();
        hash_declarations(&styles, &mut hasher);
        let key = hasher.finish();
        Self::with_key(styles, key)
    }

    /// The rule as css: `.name{key:value;...}`.
    pub fn to_string(&self) -> (r: String)
        ensures
            r@ == rule_text(self@),
    {
        let ghost ds = self@.styles.map_values(|d: (Seq<char>, Seq<char>)| declaration_text(d));
        let mut body = String::new();
        let mut i: usize = 0;
        proof {
            reveal_strlit(":");
            reveal_strlit(";");
            reveal_strlit(".");
            reveal_strlit("{");
            reveal_strlit("}");
            assert(":"@ =~= seq![':']);
            assert(";"@ =~= seq![';']);
            assert("."@ =~= seq!['.']);
            assert("{"@ =~= seq!['{']);
            assert("}"@ =~= seq!['}']);
        }
        while i < self.styles.len()
            invariant
                ds == self@.styles.map_values(|d: (Seq<char>, Seq<char>)| declaration_text(d)),
                i <= self.styles@.len(),
                body@ == concat(ds.take(i as int)),
                ":"@ == seq![':'],
                ";"@ == seq![';'],
            decreases self.styles@.len() - i,
        {
            assert(ds.take(i + 1).drop_last() =~= ds.take(i as int));
            assert(ds.take(i + 1).last() == ds[i as int]);
            let ghost before = body@;
            assert(ds[i as int] == declaration_text((self.styles@[i as int].0@, self.styles@[i as int].1@)));
            body.append(self.styles[i].0.as_str());
            body.append(":");
            body.append(self.styles[i].1.as_str());
            body.append(";");
            assert(body@ =~= before + ds[i as int]);
            i = i + 1;
        }
        assert(ds.take(self.styles@.len() as int) =~= ds);
        let mut res = String::new();
        res.append(".");
        res.append(self.rule.as_str());
        res.append("{");
        res.append(body.as_str());
        res.append("}");
        res
    }

    /// A copy of this rule.
    pub fn duplicate(&self) -> (r: StyleRule)
        ensures
            r@ == self@,
    {
        let mut styles: Vec<(String, String)> = Vec::new();
        let mut i: usize = 0;
        while i < self.styles.len()
            invariant
                i <= self.styles@.len(),
                styles@.map_values(|p: (String, String)| (p.0@, p.1@)) =~= self@.styles.take(i as int),
            decreases self.styles@.len() - i,
        {
            let ghost before = styles@.map_values(|p: (String, String)| (p.0@, p.1@));
            styles.push((self.styles[i].0.clone(), self.styles[i].1.clone()));
            assert(styles@.map_values(|p: (String, String)| (p.0@, p.1@)) =~= before.push(self@.styles[i as int]));
            assert(self@.styles.take(i + 1) =~= self@.styles.take(i as int).push(self@.styles[i as int]));
            i = i + 1;
        }
        assert(self@.styles.take(self.styles@.len() as int) =~= self@.styles);
        StyleRule { rule: self.rule.clone(), styles }
    }

    /// Whether two rules have the same name and the same declarations.
    pub fn same_as(&self, other: &StyleRule) -> (r: bool)
        ensures
            r == (self@ == other@),
    {
        if !str_eq(self.rule.as_str(), other.rule.as_str()) {
            return false;
        }
        let n = self.styles.len();
        if n != other.styles.len() {
            assert(self@.styles.len() != other@.styles.len());
            return false;
        }
        let mut i: usize = 0;
        while i < n
            invariant
                n == self.styles@.len(),
                n == other.styles@.len(),
                i <= n,
                forall|j: int| 0 <= j < i ==> self@.styles[j] == other@.styles[j],
            decreases n - i,
        {
            if !str_eq(self.styles[i].0.as_str(), other.styles[i].0.as_str()) || !str_eq(
                self.styles[i].1.as_str(),
                other.styles[i].1.as_str(),
            ) {
                assert(self@.styles[i as int] != other@.styles[i as int]);
                return false;
            }
            i = i + 1;
        }
        assert(self@.styles =~= other@.styles);
        true
    }
}

/// The first position of `": "` in `t`, if any.
pub open spec fn colon_space(t: Seq<char>, from: int) -> Option<int>
    decreases t.len() - from,
{
    if from < 0 || from + 1 >= t.len() {
        None
    } else if t[from] == ':' && t[from + 1] == ' ' {
        Some(from)
    } else {
        colon_space(t, from + 1)
    }
}

/// A printed declaration `name: value` as (name, value); text without
/// `": "` is all name.
pub open spec fn split_declaration(t: Seq<char>) -> (Seq<char>, Seq<char>) {
    match colon_space(t, 0) {
        Some(k) => (t.subrange(0, k), t.subrange(k + 2, t.len() as int)),
        None => (t, seq![]),
    }
}

/// Whether lightningcss reads `source` as declarations of known
/// properties only.
pub open spec fn declarations_ok(source: Seq<char>) -> bool {
    match spec_css_declarations(source) {
        Some(ds) => forall|i: int| 0 <= i < ds.len() ==> !(#[trigger] ds[i]).0,
        None => false,
    }
}

/// The (name, value) pairs of the declarations in `source`.
pub open spec fn declaration_pairs(source: Seq<char>) -> Seq<(Seq<char>, Seq<char>)> {
    spec_css_declarations(source)->0.map_values(|d: (bool, Seq<char>)| split_declaration(d.1))
}

/// Splits a printed declaration at its first `": "`.
pub fn split_declaration_text(t: &str) -> (r: (String, String))
    ensures
        (r.0@, r.1@) == split_declaration(t@),
{
    let n = t.unicode_len();
    let mut i: usize = 0;
    while i < n && i + 1 < n
        invariant
            n == t@.len(),
            i <= n,
            colon_space(t@, 0) == colon_space(t@, i as int),
        decreases n - i,
    {
        if t.get_char(i) == ':' && t.get_char(i + 1) == ' ' {
            return (String::from_str(t.substring_char(0, i)), String::from_str(t.substring_char(i + 2, n)));
        }
        i = i + 1;
    }
    assert(colon_space(t@, i as int) is None);
    assert(t@.subrange(0, n as int) =~= t@);
    (String::from_str(t.substring_char(0, n)), String::new())
}

/// Whether lightningcss reads `source` as declarations of known
/// properties only.
pub fn check_declarations(source: &str) -> (r: bool)
    ensures
        r == declarations_ok(source@),
{
    match css_declarations(source) {
        None => false,
        Some(ds) => {
            let mut i: usize = 0;
            while i < ds.len()
                invariant
                    i <= ds@.len(),
                    forall|k: int| 0 <= k < i ==> !ds@[k].0,
                    spec_css_declarations(source@) == Some(ds@.map_values(|d: (bool, String)| (d.0, d.1@))),
                decreases ds@.len() - i,
            {
                if ds[i].0 {
                    assert(spec_css_declarations(source@)->0[i as int].0);
                    return false;
                }
                i = i + 1;
            }
            assert forall|k: int| 0 <= k < ds@.len() implies !(#[trigger] spec_css_declarations(source@)->0[k]).0 by {
                assert(spec_css_declarations(source@)->0[k].0 == ds@[k].0);
            }
            true
        },
    }
}

impl StyleRule {
    /// The rule for the css declarations in `source`, which must be
    /// declarations of known properties: the pairs are the declarations
    /// as lightningcss prints them, split at `": "`.
    pub fn from_declarations(source: &str) -> (r: StyleRule)
        requires
            declarations_ok(source@),
        ensures
            r@.styles == declaration_pairs(source@),
            exists|key: u64| r@.rule == spec_base62(key as nat),
    {
        let ds = match css_declarations(source) {
            Some(ds) => ds,
            None => {
                proof {
                    assert(false);
                }
                Vec::new()
            },
        };
        let ghost dv = ds@.map_values(|d: (bool, String)| (d.0, d.1@));
        let mut styles: Vec<(String, String)> = Vec::new();
        let mut i: usize = 0;
        while i < ds.len()
            invariant
                dv == ds@.map_values(|d: (bool, String)| (d.0, d.1@)),
                i <= ds@.len(),
                styles@.map_values(|p: (String, String)| (p.0@, p.1@)) =~= dv.take(i as int).map_values(
                    |d: (bool, Seq<char>)| split_declaration(d.1),
                ),
            decreases ds@.len() - i,
        {
            let ghost before = styles@.map_values(|p: (String, String)| (p.0@, p.1@));
            let p = split_declaration_text(ds[i].1.as_str());
            styles.push(p);
            assert(styles@.map_values(|p: (String, String)| (p.0@, p.1@)) =~= before.push(split_declaration(dv[i as int].1)));
            assert(dv.take(i + 1) =~= dv.take(i as int).push(dv[i as int]));
            i = i + 1;
        }
        assert(dv.take(ds@.len() as int) =~= dv);
        Self::from_styles(styles)
    }
}

} // verus!
