use vstd::prelude::*;

verus! {

/// Compares two strings character by character.
pub fn str_eq(a: &str, b: &str) -> (r: bool)
    ensures
        r == (a@ == b@),
{
    let n = a.unicode_len();
    let m = b.unicode_len();
    if n != m {
        return false;
    }
    let mut i: usize = 0;
    while i < n
        invariant
            n == a@.len(),
            m == b@.len(),
            n == m,
            i <= n,
            forall|j: int| 0 <= j < i ==> a@[j] == b@[j],
        decreases n - i,
    {
        if a.get_char(i) != b.get_char(i) {
            return false;
        }
        i = i + 1;
    }
    assert(a@ =~= b@);
    true
}

/// `String::push`: appends one character.
#[verifier::external_body]
pub(crate) fn push_char(s: &mut String, c: char)
    ensures
        final(s)@ == old(s)@.push(c),
{
    s.push(c);
}

/// The strings of `parts` joined with `sep` between them.
pub open spec fn join(parts: Seq<Seq<char>>, sep: Seq<char>) -> Seq<char>
    decreases parts.len(),
{
    if parts.len() == 0 {
        seq![]
    } else if parts.len() == 1 {
        parts[0]
    } else {
        join(parts.drop_last(), sep) + sep + parts.last()
    }
}

/// The strings of `parts` one after the other.
pub open spec fn concat(parts: Seq<Seq<char>>) -> Seq<char>
    decreases parts.len(),
{
    if parts.len() == 0 {
        seq![]
    } else {
        concat(parts.drop_last()) + parts.last()
    }
}

pub open spec fn strings_view(v: Seq<String>) -> Seq<Seq<char>> {
    v.map_values(|s: String| s@)
}

pub open spec fn pairs_view(a: Seq<(String, String)>) -> Seq<(Seq<char>, Seq<char>)> {
    a.map_values(|p: (String, String)| (p.0@, p.1@))
}

/// Joins strings with a separator, as `[String]::join`.
pub fn join_strings(parts: &Vec<String>, sep: &str) -> (r: String)
    ensures
        r@ == join(strings_view(parts@), sep@),
{
    let ghost pv = strings_view(parts@);
    let mut res = String::new();
    let mut i: usize = 0;
    while i < parts.len()
        invariant
            pv == strings_view(parts@),
            i <= parts@.len(),
            res@ == join(pv.take(i as int), sep@),
        decreases parts@.len() - i,
    {
        assert(pv.take(i + 1).drop_last() =~= pv.take(i as int));
        assert(pv.take(i + 1).last() == parts@[i as int]@);
        if i != 0 {
            res.append(sep);
        } else {
            assert(pv.take(1) =~= seq![parts@[0]@]);
        }
        res.append(parts[i].as_str());
        i = i + 1;
    }
    assert(pv.take(parts@.len() as int) =~= pv);
    res
}

/// Concatenates strings.
pub fn concat_strings(parts: &Vec<String>) -> (r: String)
    ensures
        r@ == concat(strings_view(parts@)),
{
    let ghost pv = strings_view(parts@);
    let mut res = String::new();
    let mut i: usize = 0;
    while i < parts.len()
        invariant
            pv == strings_view(parts@),
            i <= parts@.len(),
            res@ == concat(pv.take(i as int)),
        decreases parts@.len() - i,
    {
        assert(pv.take(i + 1).drop_last() =~= pv.take(i as int));
        res.append(parts[i].as_str());
        i = i + 1;
    }
    assert(pv.take(parts@.len() as int) =~= pv);
    res
}

/// The character of a decimal digit.
pub open spec fn digit_char(d: nat) -> char {
    if d == 0 {
        '0'
    } else if d == 1 {
        '1'
    } else if d == 2 {
        '2'
    } else if d == 3 {
        '3'
    } else if d == 4 {
        '4'
    } else if d == 5 {
        '5'
    } else if d == 6 {
        '6'
    } else if d == 7 {
        '7'
    } else if d == 8 {
        '8'
    } else {
        '9'
    }
}

/// The decimal digits of `n`, without leading zeros (`"0"` for zero).
pub open spec fn decimal(n: nat) -> Seq<char>
    decreases n,
{
    if n < 10 {
        seq![digit_char(n)]
    } else {
        decimal(n / 10).push(digit_char(n % 10))
    }
}

/// The decimal text of an integer, with `-` before a negative one.
pub open spec fn signed_decimal(i: int) -> Seq<char> {
    if i < 0 {
        seq!['-'] + decimal((-i) as nat)
    } else {
        decimal(i as nat)
    }
}

pub(crate) fn digit(d: u128) -> (c: char)
    requires
        d < 10,
    ensures
        c == digit_char(d as nat),
{
    if d == 0 {
        '0'
    } else if d == 1 {
        '1'
    } else if d == 2 {
        '2'
    } else if d == 3 {
        '3'
    } else if d == 4 {
        '4'
    } else if d == 5 {
        '5'
    } else if d == 6 {
        '6'
    } else if d == 7 {
        '7'
    } else if d == 8 {
        '8'
    } else {
        '9'
    }
}

/// The decimal text of an unsigned integer, as `to_string` writes it.
pub fn decimal_u128(n: u128) -> (r: String)
    ensures
        r@ == decimal(n as nat),
    decreases n,
{
    if n < 10 {
        let mut s = String::new();
        push_char(&mut s, digit(n));
        assert(s@ =~= seq![digit_char(n as nat)]);
        s
    } else {
        let mut s = decimal_u128(n / 10);
        push_char(&mut s, digit(n % 10));
        s
    }
}

/// The decimal text of a signed integer, as `to_string` writes it.
pub fn decimal_i128(n: i128) -> (r: String)
    ensures
        r@ == signed_decimal(n as int),
{
    if n < 0 {
        let magnitude: u128 = ((-(n + 1)) as u128) + 1;
        let digits = decimal_u128(magnitude);
        let mut s = String::new();
        push_char(&mut s, '-');
        s.append(digits.as_str());
        assert(s@ =~= seq!['-'] + decimal((-n) as nat));
        s
    } else {
        decimal_u128(n as u128)
    }
}

/// A list of (name, value) pairs after setting `key` to `value`: a pair of that
/// name changes its value in place; otherwise the pair is added last.
pub open spec fn attribute_set(attrs: Seq<(Seq<char>, Seq<char>)>, key: Seq<char>, value: Seq<char>) -> Seq<(Seq<char>, Seq<char>)> {
    if exists|i: int| 0 <= i < attrs.len() && attrs[i].0 == key {
        let i = choose|i: int| 0 <= i < attrs.len() && attrs[i].0 == key;
        attrs.update(i, (key, value))
    } else {
        attrs.push((key, value))
    }
}

/// No name occurs twice.
pub open spec fn unique_names(attrs: Seq<(Seq<char>, Seq<char>)>) -> bool {
    forall|i: int, j: int| 0 <= i < j < attrs.len() ==> attrs[i].0 != attrs[j].0
}

/// Sets `key` to `value` in a list of pairs with distinct names.
pub fn set_attribute(attributes: &mut Vec<(String, String)>, key: String, value: String)
    requires
        unique_names(old(attributes)@.map_values(|p: (String, String)| (p.0@, p.1@))),
    ensures
        final(attributes)@.map_values(|p: (String, String)| (p.0@, p.1@)) == attribute_set(
            old(attributes)@.map_values(|p: (String, String)| (p.0@, p.1@)),
            key@,
            value@,
        ),
        unique_names(final(attributes)@.map_values(|p: (String, String)| (p.0@, p.1@))),
{
    let ghost av = attributes@.map_values(|p: (String, String)| (p.0@, p.1@));
    let mut i: usize = 0;
    while i < attributes.len()
        invariant
            av == attributes@.map_values(|p: (String, String)| (p.0@, p.1@)),
            av == old(attributes)@.map_values(|p: (String, String)| (p.0@, p.1@)),
            unique_names(av),
            i <= attributes@.len(),
            forall|k: int| 0 <= k < i ==> av[k].0 != key@,
        decreases attributes@.len() - i,
    {
        if str_eq(attributes[i].0.as_str(), key.as_str()) {
            let ghost kv = key@;
            let ghost vv = value@;
            attributes.set(i, (key, value));
            assert(av[i as int].0 == kv);
            assert(forall|k: int| 0 <= k < av.len() && av[k].0 == kv ==> k == i);
            proof {
                assert(0 <= i < av.len() && av[i as int].0 == kv);
                let j = choose|j: int| 0 <= j < av.len() && av[j].0 == kv;
                assert(j == i);
            }
            assert(attributes@.map_values(|p: (String, String)| (p.0@, p.1@)) =~= av.update(i as int, (kv, vv)));
            return;
        }
        i = i + 1;
    }
    let ghost kv = key@;
    let ghost vv = value@;
    attributes.push((key, value));
    assert(attributes@.map_values(|p: (String, String)| (p.0@, p.1@)) =~= av.push((kv, vv)));
}

/// Setting a name twice leaves the second value, as if it were set once.
pub proof fn lemma_set_twice(attrs: Seq<(Seq<char>, Seq<char>)>, key: Seq<char>, v1: Seq<char>, v2: Seq<char>)
    requires
        unique_names(attrs),
    ensures
        attribute_set(attribute_set(attrs, key, v1), key, v2) == attribute_set(attrs, key, v2),
{
    let a1 = attribute_set(attrs, key, v1);
    if exists|i: int| 0 <= i < attrs.len() && attrs[i].0 == key {
        let i = choose|i: int| 0 <= i < attrs.len() && attrs[i].0 == key;
        assert(a1 == attrs.update(i, (key, v1)));
        assert(a1[i].0 == key);
        let j = choose|j: int| 0 <= j < a1.len() && a1[j].0 == key;
        if j != i {
            assert(a1[j] == attrs[j]);
            if j < i {
                assert(attrs[j].0 != attrs[i].0);
            } else {
                assert(attrs[i].0 != attrs[j].0);
            }
        }
        assert(a1.update(i, (key, v2)) =~= attrs.update(i, (key, v2)));
    } else {
        let n = attrs.len() as int;
        assert(a1 == attrs.push((key, v1)));
        assert(a1[n].0 == key);
        let j = choose|j: int| 0 <= j < a1.len() && a1[j].0 == key;
        if j != n {
            assert(a1[j] == attrs[j]);
        }
        assert(a1.update(n, (key, v2)) =~= attrs.push((key, v2)));
    }
}

/// The character of digit `d` is the `d`-th one after `'0'`, and the
/// decimal text of a number below ten is that one character.
pub proof fn lemma_digit_chars(d: nat)
    requires
        d < 10,
    ensures
        digit_char(d) as u32 == ('0' as u32) + d,
        decimal(d) == seq![digit_char(d)],
{
}

} // verus!
