use vstd::prelude::*;

use crate::route_http::method::{spec_method_from_name, HttpMethod};
use crate::route_http::response::{check_header_value, is_header_value};
use crate::text::{decimal, digit_char, pairs_view, push_char, strings_view};

verus! {

/// A request: its method and uri as the request line names them, its
/// headers and its body.
#[derive(Debug)]
pub struct Request {
    pub method: String,
    pub uri: String,
    /// (name, value) pairs in order; a name may occur more than once.
    pub headers: Vec<(String, String)>,
    pub body: Vec<u8>,
}

/// A character of an HTTP token: a letter, a digit or one of
/// ``!#$%&'*+-.^_`|~``.
pub open spec fn is_token_char(c: char) -> bool {
    ||| ('a' <= c && c <= 'z')
    ||| ('A' <= c && c <= 'Z')
    ||| ('0' <= c && c <= '9')
    ||| c == '!' || c == '#' || c == '$' || c == '%' || c == '&' || c == '\''
    ||| c == '*' || c == '+' || c == '-' || c == '.' || c == '^' || c == '_'
    ||| c == '`' || c == '|' || c == '~'
}

/// A non-empty run of token characters.
pub open spec fn is_token(s: Seq<char>) -> bool {
    s.len() > 0 && forall|i: int| 0 <= i < s.len() ==> is_token_char(#[trigger] s[i])
}

/// Whether http accepts `name` as a request method: a standard method or
/// an extension, both made of token characters.
pub open spec fn spec_method_valid(name: Seq<char>) -> bool {
    is_token(name)
}

/// Whether http reads `text` as a uri.
pub uninterp spec fn spec_uri_valid(text: Seq<char>) -> bool;

/// The header name that http makes of `text`: the text in ASCII lower
/// case, when it is a token of at most 65535 characters.
pub open spec fn spec_header_name(text: Seq<char>) -> Option<Seq<char>> {
    if is_token(text) && text.len() <= 65535 {
        Some(ascii_lower(text))
    } else {
        None
    }
}

/// `http::Method::from_str`: whether the method name parses; http
/// accepts a name exactly when it is a token (its table of method
/// characters holds the token characters and nothing else).
#[verifier::external_body]
fn method_is_valid(name: &str) -> (r: bool)
    ensures
        r == spec_method_valid(name@),
{
    name.parse::<http::Method>().is_ok()
}

/// `http::Uri::from_str`: whether the text parses as a uri.
#[verifier::external_body]
fn uri_is_valid(text: &str) -> (r: bool)
    ensures
        r == spec_uri_valid(text@),
{
    text.parse::<http::Uri>().is_ok()
}

/// `http::header::HeaderName::from_str`: the name as http keeps it, if the
/// text is a header name. http takes a token of at most 65535 bytes and
/// keeps it in ASCII lower case (its table of name characters holds the
/// token characters and maps every upper-case letter to lower case).
#[verifier::external_body]
fn header_name(text: &str) -> (r: Option<String>)
    ensures
        match r {
            Some(n) => spec_header_name(text@) == Some(n@),
            None => spec_header_name(text@) is None,
        },
{
    match text.parse::<http::header::HeaderName>() {
        Ok(n) => Some(n.as_str().to_string()),
        Err(_) => None,
    }
}

/// The pieces of `s` between the occurrences of `c`, as `str::split`
/// gives them (one piece more than there are occurrences).
pub open spec fn split_on(s: Seq<char>, c: char) -> Seq<Seq<char>>
    decreases s.len(),
{
    if s.len() == 0 {
        seq![seq![]]
    } else {
        let p = split_on(s.drop_last(), c);
        if s.last() == c {
            p.push(seq![])
        } else {
            p.update(p.len() - 1, p.last().push(s.last()))
        }
    }
}

/// Unicode white space, as `char::is_whitespace` knows it.
pub open spec fn is_whitespace(c: char) -> bool {
    ||| c == ' '
    ||| ('\t' <= c && c <= '\r')
    ||| c == '\u{85}'
    ||| c == '\u{a0}'
    ||| c == '\u{1680}'
    ||| ('\u{2000}' <= c && c <= '\u{200a}')
    ||| c == '\u{2028}'
    ||| c == '\u{2029}'
    ||| c == '\u{202f}'
    ||| c == '\u{205f}'
    ||| c == '\u{3000}'
}

/// The words of `s`: its maximal runs of characters that are not white
/// space, as `str::split_whitespace` gives them.
pub open spec fn words(s: Seq<char>) -> Seq<Seq<char>>
    decreases s.len(),
{
    if s.len() == 0 {
        seq![]
    } else {
        let w = words(s.drop_last());
        let c = s.last();
        if is_whitespace(c) {
            w
        } else if s.len() >= 2 && !is_whitespace(s[s.len() - 2]) {
            w.update(w.len() - 1, w.last().push(c))
        } else {
            w.push(seq![c])
        }
    }
}

/// The first `": "` in `s` at `from` or after it.
pub open spec fn first_sep(s: Seq<char>, from: int) -> Option<int>
    decreases s.len() - from,
{
    if from < 0 || from + 1 >= s.len() {
        None
    } else if s[from] == ':' && s[from + 1] == ' ' {
        Some(from)
    } else {
        first_sep(s, from + 1)
    }
}

/// A header line read as a name and a value: the text before the first
/// `": "`, and the text from there up to the next `": "` or the end.
pub open spec fn header_pair(line: Seq<char>) -> Option<(Seq<char>, Seq<char>)> {
    match first_sep(line, 0) {
        None => None,
        Some(i) => match first_sep(line, i + 2) {
            None => Some((line.subrange(0, i), line.subrange(i + 2, line.len() as int))),
            Some(j) => Some((line.subrange(0, i), line.subrange(i + 2, j))),
        },
    }
}

/// The lines after the request line, in the order they are read: the last
/// line first, then the others from the second on.
pub open spec fn header_line_order(lines: Seq<Seq<char>>) -> Seq<Seq<char>> {
    if lines.len() <= 1 {
        seq![]
    } else {
        seq![lines.last()] + lines.subrange(1, lines.len() - 1)
    }
}

/// The headers of these lines, if every line is a header.
pub open spec fn spec_parse_headers(lines: Seq<Seq<char>>) -> Option<Seq<(Seq<char>, Seq<char>)>>
    decreases lines.len(),
{
    if lines.len() == 0 {
        Some(seq![])
    } else {
        match spec_parse_headers(lines.drop_last()) {
            None => None,
            Some(hs) => match header_pair(lines.last()) {
                None => None,
                Some(kv) => match spec_header_name(kv.0) {
                    None => None,
                    Some(name) => if is_header_value(kv.1) {
                        Some(hs.push((name, kv.1)))
                    } else {
                        None
                    },
                },
            },
        }
    }
}

/// A request head read from text whose lines are separated by `\n`: the
/// first two words of the first line are the method and the uri; each
/// other line is a header `name: value`.
pub open spec fn spec_parse_request(text: Seq<char>) -> Option<(Seq<char>, Seq<char>, Seq<(Seq<char>, Seq<char>)>)> {
    let lines = split_on(text, '\n');
    let ws = words(lines[0]);
    if ws.len() < 2 || !spec_method_valid(ws[0]) || !spec_uri_valid(ws[1]) {
        None
    } else {
        match spec_parse_headers(header_line_order(lines)) {
            None => None,
            Some(hs) => Some((ws[0], ws[1], hs)),
        }
    }
}

proof fn lemma_split_on_nonempty(s: Seq<char>, c: char)
    ensures
        split_on(s, c).len() >= 1,
    decreases s.len(),
{
    if s.len() > 0 {
        lemma_split_on_nonempty(s.drop_last(), c);
    }
}

/// The pieces of `s` between the occurrences of `c`.
pub fn split_char(s: &str, c: char) -> (r: Vec<String>)
    ensures
        strings_view(r@) == split_on(s@, c),
{
    let n = s.unicode_len();
    let mut parts: Vec<String> = Vec::new();
    parts.push(String::new());
    assert(s@.take(0) =~= Seq::<char>::empty());
    assert(strings_view(parts@) =~= seq![Seq::<char>::empty()]);
    let mut i: usize = 0;
    while i < n
        invariant
            n == s@.len(),
            i <= n,
            strings_view(parts@) == split_on(s@.take(i as int), c),
            parts@.len() >= 1,
        decreases n - i,
    {
        let ch = s.get_char(i);
        let ghost before = strings_view(parts@);
        assert(s@.take(i + 1).drop_last() =~= s@.take(i as int));
        assert(s@.take(i + 1).last() == ch);
        if ch == c {
            parts.push(String::new());
            assert(strings_view(parts@) =~= before.push(seq![]));
        } else {
            let mut last = parts.pop().unwrap();
            push_char(&mut last, ch);
            parts.push(last);
            assert(strings_view(parts@) =~= before.update(before.len() - 1, before.last().push(ch)));
        }
        i = i + 1;
    }
    assert(s@.take(n as int) =~= s@);
    parts
}

/// Whether `c` is white space, as `char::is_whitespace` says.
pub fn char_is_whitespace(c: char) -> (r: bool)
    ensures
        r == is_whitespace(c),
{
    c == ' ' || ('\t' <= c && c <= '\r') || c == '\u{85}' || c == '\u{a0}' || c == '\u{1680}' || ('\u{2000}' <= c
        && c <= '\u{200a}') || c == '\u{2028}' || c == '\u{2029}' || c == '\u{202f}' || c == '\u{205f}' || c
        == '\u{3000}'
}

/// The words of `s`, as `str::split_whitespace` gives them.
pub fn split_words(s: &str) -> (r: Vec<String>)
    ensures
        strings_view(r@) == words(s@),
{
    let n = s.unicode_len();
    let mut out: Vec<String> = Vec::new();
    let mut in_word = false;
    let mut i: usize = 0;
    assert(s@.take(0) =~= Seq::<char>::empty());
    assert(strings_view(out@) =~= Seq::<Seq<char>>::empty());
    while i < n
        invariant
            n == s@.len(),
            i <= n,
            strings_view(out@) == words(s@.take(i as int)),
            in_word == (i > 0 && !is_whitespace(s@[i - 1])),
            in_word ==> out@.len() > 0,
        decreases n - i,
    {
        let ch = s.get_char(i);
        let ghost before = strings_view(out@);
        let ghost t = s@.take(i + 1);
        assert(t.drop_last() =~= s@.take(i as int));
        assert(t.last() == ch);
        if i > 0 {
            assert(t[t.len() - 2] == s@[i - 1]);
        }
        if char_is_whitespace(ch) {
            in_word = false;
        } else if in_word {
            let mut last = out.pop().unwrap();
            push_char(&mut last, ch);
            out.push(last);
            assert(strings_view(out@) =~= before.update(before.len() - 1, before.last().push(ch)));
        } else {
            let mut w = String::new();
            push_char(&mut w, ch);
            let ghost wv = w@;
            out.push(w);
            assert(wv =~= seq![ch]);
            assert(strings_view(out@) =~= before.push(seq![ch]));
            in_word = true;
        }
        i = i + 1;
    }
    assert(s@.take(n as int) =~= s@);
    out
}

/// The position of the first `": "` in `s` at `from` or after it.
fn find_sep(s: &str, from: usize) -> (r: Option<usize>)
    ensures
        match r {
            Some(i) => first_sep(s@, from as int) == Some(i as int),
            None => first_sep(s@, from as int) is None,
        },
{
    let n = s.unicode_len();
    let mut i = from;
    while i < n && i + 1 < n
        invariant
            n == s@.len(),
            from <= i,
            first_sep(s@, from as int) == first_sep(s@, i as int),
        decreases n - i,
    {
        if s.get_char(i) == ':' && s.get_char(i + 1) == ' ' {
            return Some(i);
        }
        i = i + 1;
    }
    None
}

/// The name and value of a header line.
fn split_header_line(line: &str) -> (r: Option<(String, String)>)
    ensures
        match r {
            Some(kv) => header_pair(line@) == Some((kv.0@, kv.1@)),
            None => header_pair(line@) is None,
        },
{
    let n = line.unicode_len();
    match find_sep(line, 0) {
        None => None,
        Some(i) => {
            proof {
                lemma_first_sep_in_range(line@, 0, i as int);
            }
            let key = line.substring_char(0, i);
            match find_sep(line, i + 2) {
                None => {
                    let value = line.substring_char(i + 2, n);
                    Some((String::from_str(key), String::from_str(value)))
                },
                Some(j) => {
                    proof {
                        lemma_first_sep_in_range(line@, i + 2, j as int);
                    }
                    let value = line.substring_char(i + 2, j);
                    Some((String::from_str(key), String::from_str(value)))
                },
            }
        },
    }
}

proof fn lemma_first_sep_in_range(s: Seq<char>, from: int, i: int)
    requires
        first_sep(s, from) == Some(i),
    ensures
        from <= i,
        i + 1 < s.len(),
    decreases s.len() - from,
{
    if from < 0 || from + 1 >= s.len() {
    } else if s[from] == ':' && s[from + 1] == ' ' {
    } else {
        lemma_first_sep_in_range(s, from + 1, i);
    }
}


/// A character in ASCII lower case.
pub open spec fn lower_char(c: char) -> char {
    if 'A' <= c && c <= 'Z' {
        ((c as u32) + 32) as char
    } else {
        c
    }
}

/// A text with its ASCII letters in lower case.
pub open spec fn ascii_lower(s: Seq<char>) -> Seq<char> {
    s.map_values(|c: char| lower_char(c))
}

/// The index of the first header named `name` (compared in ASCII lower
/// case), if any.
pub open spec fn first_header(headers: Seq<(Seq<char>, Seq<char>)>, name: Seq<char>) -> Option<int> {
    if exists|i: int| 0 <= i < headers.len() && headers[i].0 == ascii_lower(name) {
        Some(choose|i: int| 0 <= i < headers.len() && headers[i].0 == ascii_lower(name) && forall|k: int|
            0 <= k < i ==> headers[k].0 != ascii_lower(name))
    } else {
        None
    }
}

/// The digits of `s` as a number, if `s` is made of decimal digits only.
pub open spec fn digits_value(s: Seq<char>) -> Option<nat>
    decreases s.len(),
{
    if s.len() == 0 {
        Some(0)
    } else {
        match digits_value(s.drop_last()) {
            None => None,
            Some(v) => if '0' <= s.last() && s.last() <= '9' {
                Some(v * 10 + ((s.last() as u32) - ('0' as u32)) as nat)
            } else {
                None
            },
        }
    }
}

/// The number that `usize::from_str` reads from `s`: decimal digits, after
/// an optional `+`, that fit in a `usize`.
pub open spec fn spec_parse_usize(s: Seq<char>) -> Option<usize> {
    let d = if s.len() > 0 && s[0] == '+' {
        s.drop_first()
    } else {
        s
    };
    if d.len() == 0 {
        None
    } else {
        match digits_value(d) {
            Some(v) => if v <= usize::MAX {
                Some(v as usize)
            } else {
                None
            },
            None => None,
        }
    }
}

proof fn lemma_digit_value(d: nat)
    requires
        d < 10,
    ensures
        '0' <= digit_char(d) && digit_char(d) <= '9',
        ((digit_char(d) as u32) - ('0' as u32)) as nat == d,
{
}

/// The decimal digits of a number read back as that number.
pub proof fn lemma_decimal_reads_back(n: nat)
    ensures
        digits_value(decimal(n)) == Some(n),
    decreases n,
{
    lemma_digit_value(n % 10);
    let s = decimal(n);
    if n < 10 {
        assert(s.drop_last() =~= Seq::<char>::empty());
        assert(digits_value(s.drop_last()) == Some(0nat));
        assert(s.last() == digit_char(n));
        assert(n % 10 == n);
    } else {
        lemma_decimal_reads_back(n / 10);
        assert(s.drop_last() =~= decimal(n / 10));
        assert(s.last() == digit_char(n % 10));
        assert((n / 10) * 10 + n % 10 == n) by (nonlinear_arith);
    }
}

proof fn lemma_decimal_starts_with_digit(n: nat)
    ensures
        decimal(n).len() > 0,
        '0' <= decimal(n)[0] && decimal(n)[0] <= '9',
    decreases n,
{
    lemma_digit_value(n % 10);
    if n >= 10 {
        lemma_decimal_starts_with_digit(n / 10);
    }
}

/// A `usize` written in decimal, as a `content-length` value is, reads
/// back as itself.
pub proof fn lemma_usize_round_trip(n: usize)
    ensures
        spec_parse_usize(decimal(n as nat)) == Some(n),
{
    lemma_decimal_reads_back(n as nat);
    lemma_decimal_starts_with_digit(n as nat);
}

fn to_lower_char(c: char) -> (r: char)
    ensures
        r == lower_char(c),
{
    if 'A' <= c && c <= 'Z' {
        let b: u8 = (c as u8) + 32;
        b as char
    } else {
        c
    }
}

/// `s` with its ASCII letters in lower case.
pub fn to_ascii_lower(s: &str) -> (r: String)
    ensures
        r@ == ascii_lower(s@),
{
    let n = s.unicode_len();
    let mut out = String::new();
    let mut i: usize = 0;
    while i < n
        invariant
            n == s@.len(),
            i <= n,
            out@ == ascii_lower(s@.take(i as int)),
        decreases n - i,
    {
        let c = to_lower_char(s.get_char(i));
        let ghost before = out@;
        push_char(&mut out, c);
        assert(ascii_lower(s@.take(i + 1)) =~= ascii_lower(s@.take(i as int)).push(lower_char(s@[i as int])));
        i = i + 1;
    }
    assert(s@.take(n as int) =~= s@);
    out
}

/// Reads a `usize` as `usize::from_str` does.
pub fn parse_usize(s: &str) -> (r: Option<usize>)
    ensures
        r == spec_parse_usize(s@),
{
    let n = s.unicode_len();
    let mut i: usize = 0;
    if n > 0 && s.get_char(0) == '+' {
        i = 1;
    }
    let ghost d = if s@.len() > 0 && s@[0] == '+' {
        s@.drop_first()
    } else {
        s@
    };
    let start = i;
    assert(d =~= s@.subrange(start as int, n as int));
    if start == n {
        return None;
    }
    let mut value: usize = 0;
    assert(d.take(0) =~= Seq::<char>::empty());
    while i < n
        invariant
            n == s@.len(),
            start <= i <= n,
            d =~= s@.subrange(start as int, n as int),
            d == (if s@.len() > 0 && s@[0] == '+' {
                s@.drop_first()
            } else {
                s@
            }),
            d.len() > 0,
            digits_value(d.take(i - start)) == Some(value as nat),
        decreases n - i,
    {
        let c = s.get_char(i);
        let ghost t = d.take(i - start + 1);
        assert(t.drop_last() =~= d.take(i - start));
        assert(t.last() == c);
        if !('0' <= c && c <= '9') {
            proof {
                lemma_digits_fail(d, (i - start) as int);
            }
            return None;
        }
        let digit = (c as u32 - '0' as u32) as usize;
        assert(digits_value(t) == Some(value as nat * 10 + digit as nat));
        match value.checked_mul(10) {
            None => {
                proof {
                    lemma_digits_grow(d, (i - start) as int);
                }
                return None;
            },
            Some(m) => match m.checked_add(digit) {
                None => {
                    proof {
                        lemma_digits_grow(d, (i - start) as int);
                    }
                    return None;
                },
                Some(v) => {
                    value = v;
                },
            },
        }
        i = i + 1;
    }
    assert(d.take(n - start) =~= d);
    Some(value)
}

/// Once a prefix holds a character that is not a digit, no longer text is
/// made of digits.
proof fn lemma_digits_fail(d: Seq<char>, i: int)
    requires
        0 <= i < d.len(),
        digits_value(d.take(i + 1)) is None,
    ensures
        digits_value(d) is None,
    decreases d.len() - i,
{
    if i + 1 < d.len() {
        assert(d.take(i + 2).drop_last() =~= d.take(i + 1));
        lemma_digits_fail(d, i + 1);
    } else {
        assert(d.take(i + 1) =~= d);
    }
}

/// The value of digits only grows as digits are added.
proof fn lemma_digits_grow(d: Seq<char>, i: int)
    requires
        0 <= i < d.len(),
        digits_value(d.take(i + 1)) matches Some(v) && v > usize::MAX,
    ensures
        digits_value(d) is None || digits_value(d)->0 > usize::MAX,
    decreases d.len() - i,
{
    if i + 1 < d.len() {
        assert(d.take(i + 2).drop_last() =~= d.take(i + 1));
        if digits_value(d.take(i + 2)) is None {
            lemma_digits_fail(d, i + 1);
        } else {
            lemma_digits_grow(d, i + 1);
        }
    } else {
        assert(d.take(i + 1) =~= d);
    }
}

impl Request {
    /// Header names are kept in ASCII lower case, as http keeps them.
    pub open spec fn wf(&self) -> bool {
        forall|i: int| 0 <= i < self.headers@.len() ==> ascii_lower(#[trigger] self.headers@[i].0@) == self.headers@[i].0@
    }

    /// The value of the first header of this name (compared in ASCII
    /// lower case, as header names are kept).
    pub fn header(&self, name: &str) -> (r: Option<&String>)
        ensures
            match first_header(pairs_view(self.headers@), name@) {
                Some(i) => r matches Some(v) && *v == self.headers@[i].1,
                None => r is None,
            },
    {
        let key = to_ascii_lower(name);
        let ghost hv = pairs_view(self.headers@);
        let mut i: usize = 0;
        while i < self.headers.len()
            invariant
                i <= self.headers@.len(),
                hv == pairs_view(self.headers@),
                key@ == ascii_lower(name@),
                forall|k: int| 0 <= k < i ==> hv[k].0 != ascii_lower(name@),
            decreases self.headers@.len() - i,
        {
            if crate::text::str_eq(self.headers[i].0.as_str(), key.as_str()) {
                proof {
                    assert(hv[i as int].0 == ascii_lower(name@));
                    let j = choose|j: int| 0 <= j < hv.len() && hv[j].0 == ascii_lower(name@) && forall|k: int|
                        0 <= k < j ==> hv[k].0 != ascii_lower(name@);
                    if j < i {
                    } else if j > i {
                        assert(hv[i as int].0 != ascii_lower(name@));
                    }
                }
                return Some(&self.headers[i].1);
            }
            i = i + 1;
        }
        None
    }

    /// The length of the body that the `content-length` header announces:
    /// zero without the header, nothing when its value is not a `usize`.
    pub fn content_length(&self) -> (r: Option<usize>)
        ensures
            r == (match first_header(pairs_view(self.headers@), "content-length"@) {
                Some(i) => spec_parse_usize(self.headers@[i].1@),
                None => Some(0usize),
            }),
    {
        match self.header("content-length") {
            None => Some(0),
            Some(v) => parse_usize(v.as_str()),
        }
    }

    /// The routed method that the request line names, if it is one of
    /// them.
    pub fn http_method(&self) -> (r: Option<HttpMethod>)
        ensures
            r == spec_method_from_name(self.method@),
    {
        match HttpMethod::try_from_str(self.method.as_str()) {
            Ok(m) => Some(m),
            Err(_) => None,
        }
    }

    /// Reads a request head from text whose lines are separated by `\n`:
    /// the method and the uri are the first two words of the first line;
    /// every other line is a header `name: value` (what follows a second
    /// `": "` is dropped), read with the last line first. Nothing when the
    /// text is not such a head. The body is empty.
    pub fn from_head_text(text: &str) -> (r: Option<Request>)
        ensures
            match r {
                Some(req) => spec_parse_request(text@) == Some((req.method@, req.uri@, pairs_view(req.headers@)))
                    && req.body@.len() == 0 && req.wf(),
                None => spec_parse_request(text@) is None,
            },
    {
        let mut lines = split_char(text, '\n');
        let ghost lv = strings_view(lines@);
        proof {
            lemma_split_on_nonempty(text@, '\n');
        }
        let first = lines.swap_remove(0);
        assert(first@ == lv[0]);
        assert(strings_view(lines@) =~= header_line_order(lv));
        let ws = split_words(first.as_str());
        if ws.len() < 2 {
            return None;
        }
        if !method_is_valid(ws[0].as_str()) {
            return None;
        }
        if !uri_is_valid(ws[1].as_str()) {
            return None;
        }
        let ghost order = strings_view(lines@);
        let mut headers: Vec<(String, String)> = Vec::new();
        let mut i: usize = 0;
        let n = lines.len();
        assert(order.take(0) =~= Seq::<Seq<char>>::empty());
        while i < n
            invariant
                n == lines@.len(),
                i <= n,
                order == strings_view(lines@),
                order == header_line_order(split_on(text@, '\n')),
                strings_view(ws@) == words(split_on(text@, '\n')[0]),
                ws@.len() >= 2,
                spec_method_valid(ws@[0]@),
                spec_uri_valid(ws@[1]@),
                spec_parse_headers(order.take(i as int)) == Some(pairs_view(headers@)),
                forall|k: int| 0 <= k < headers@.len() ==> ascii_lower(#[trigger] headers@[k].0@) == headers@[k].0@,
            decreases n - i,
        {
            assert(order.take(i + 1).drop_last() =~= order.take(i as int));
            assert(order.take(i + 1).last() == lines@[i as int]@);
            match split_header_line(lines[i].as_str()) {
                None => {
                    proof {
                        lemma_parse_headers_fails(order, i as int);
                    }
                    return None;
                },
                Some(kv) => match header_name(kv.0.as_str()) {
                    None => {
                        proof {
                            lemma_parse_headers_fails(order, i as int);
                        }
                        return None;
                    },
                    Some(name) => {
                        if !check_header_value(kv.1.as_str()) {
                            proof {
                                lemma_parse_headers_fails(order, i as int);
                            }
                            return None;
                        }
                        let ghost before = pairs_view(headers@);
                        let ghost nv = name@;
                        let ghost vv = kv.1@;
                        headers.push((name, kv.1));
                        assert(pairs_view(headers@) =~= before.push((nv, vv)));
                    },
                },
            }
            i = i + 1;
        }
        assert(order.take(n as int) =~= order);
        let method = ws[0].clone();
        let uri = ws[1].clone();
        Some(Request { method, uri, headers, body: Vec::new() })
    }
}

/// Once the headers of a prefix of the lines fail, so do the headers of
/// every longer prefix.
proof fn lemma_parse_headers_fails(lines: Seq<Seq<char>>, i: int)
    requires
        0 <= i < lines.len(),
        spec_parse_headers(lines.take(i + 1)) is None,
    ensures
        spec_parse_headers(lines) is None,
    decreases lines.len() - i,
{
    if i + 1 < lines.len() {
        assert(lines.take(i + 2).drop_last() =~= lines.take(i + 1));
        lemma_parse_headers_fails(lines, i + 1);
    } else {
        assert(lines.take(i + 1) =~= lines);
    }
}

} // verus!
