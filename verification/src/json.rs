//! A small JSON model with a parser and a serializer, covering the subset
//! of JSON that the gateway's transaction endpoints speak: objects, arrays,
//! strings, unsigned integers and `null`.
//!
//! The parser is lenient where leniency cannot change the meaning of a
//! well-formed body (it accepts a trailing comma and raw control characters
//! inside strings) and strict where the protocol is strict (field names are
//! matched character for character). Escape sequences `\" \\ \/ \b \f \n \r \t`
//! are understood; `\u` escapes, signed and fractional numbers and booleans
//! are outside the subset and make a body malformed.

use vstd::prelude::*;
use vstd::string::StrSliceExecFns;

verus! {

broadcast use {vstd::seq::group_seq_axioms, vstd::std_specs::vec::group_vec_axioms};

/// Relies on String::push: appends one character at the end of the string.
pub assume_specification[ String::push ](s: &mut String, c: char)
    ensures
        final(s)@ == old(s)@.push(c),
;

/// The mathematical shape of a JSON value in the gateway's subset.
pub enum JsonV {
    Null,
    UInt(u64),
    Str(Seq<char>),
    Arr(Seq<JsonV>),
    Obj(Seq<(Seq<char>, JsonV)>),
}

/// An executable JSON value in the gateway's subset.
#[derive(Debug, PartialEq)]
pub enum Json {
    Null,
    UInt(u64),
    Str(String),
    Arr(Vec<Json>),
    Obj(Vec<(String, Json)>),
}

/// The mathematical contents of a sequence of executable JSON values.
pub open spec fn arr_view(v: Seq<Json>) -> Seq<JsonV>
    decreases v,
{
    Seq::new(
        v.len(),
        |k: int|
            if 0 <= k < v.len() {
                v[k]@
            } else {
                JsonV::Null
            },
    )
}

/// The mathematical contents of a sequence of executable JSON members.
pub open spec fn obj_view(v: Seq<(String, Json)>) -> Seq<(Seq<char>, JsonV)>
    decreases v,
{
    Seq::new(
        v.len(),
        |k: int|
            if 0 <= k < v.len() {
                (v[k].0@, v[k].1@)
            } else {
                (Seq::empty(), JsonV::Null)
            },
    )
}

impl View for Json {
    type V = JsonV;

    open spec fn view(&self) -> JsonV
        decreases self,
    {
        match self {
            Json::Null => JsonV::Null,
            Json::UInt(n) => JsonV::UInt(*n),
            Json::Str(s) => JsonV::Str(s@),
            Json::Arr(v) => JsonV::Arr(arr_view(v@)),
            Json::Obj(v) => JsonV::Obj(obj_view(v@)),
        }
    }
}

pub open spec fn is_ws_char(c: char) -> bool {
    c == ' ' || c == '\n' || c == '\t' || c == '\r'
}

pub open spec fn is_digit_char(c: char) -> bool {
    48 <= c as int && c as int <= 57
}

pub open spec fn digit_val(c: char) -> int {
    c as int - 48
}

pub open spec fn digit_char(d: int) -> char {
    ((48 + d) as u8) as char
}

/// The index of the first character at or after `i` that is not whitespace.
pub open spec fn spec_skip_ws(s: Seq<char>, i: int) -> int
    decreases s.len() - i,
{
    if 0 <= i < s.len() && is_ws_char(s[i]) {
        spec_skip_ws(s, i + 1)
    } else {
        i
    }
}

/// The character that a backslash escape stands for, if the escape is known.
pub open spec fn spec_unescape_char(c: char) -> Option<char> {
    if c == '"' {
        Some('"')
    } else if c == '\\' {
        Some('\\')
    } else if c == '/' {
        Some('/')
    } else if c == 'n' {
        Some('\n')
    } else if c == 't' {
        Some('\t')
    } else if c == 'r' {
        Some('\r')
    } else if c == 'b' {
        Some('\u{0008}')
    } else if c == 'f' {
        Some('\u{000C}')
    } else {
        None
    }
}

/// Parses the inside of a string literal starting at `i` (just after the
/// opening quote), up to and including the closing quote. Returns the
/// unescaped contents and the index just after the closing quote.
pub open spec fn spec_parse_string_body(s: Seq<char>, i: int) -> Option<(Seq<char>, int)>
    decreases s.len() - i,
{
    if !(0 <= i < s.len()) {
        None
    } else if s[i] == '"' {
        Some((Seq::empty(), i + 1))
    } else if s[i] == '\\' {
        if i + 1 < s.len() {
            match spec_unescape_char(s[i + 1]) {
                Some(c) => match spec_parse_string_body(s, i + 2) {
                    Some(p) => Some((seq![c] + p.0, p.1)),
                    None => None,
                },
                None => None,
            }
        } else {
            None
        }
    } else {
        match spec_parse_string_body(s, i + 1) {
            Some(p) => Some((seq![s[i]] + p.0, p.1)),
            None => None,
        }
    }
}

/// The index just after the maximal run of digits starting at `i`.
pub open spec fn spec_digits_end(s: Seq<char>, i: int) -> int
    decreases s.len() - i,
{
    if 0 <= i < s.len() && is_digit_char(s[i]) {
        spec_digits_end(s, i + 1)
    } else {
        i
    }
}

/// The value of the digit run `s[i..e]`, read as a decimal numeral.
pub open spec fn spec_digits_val(s: Seq<char>, i: int, e: int) -> int
    decreases e - i,
{
    if i < e {
        spec_digits_val(s, i, e - 1) * 10 + digit_val(s[e - 1])
    } else {
        0
    }
}

/// Parses one JSON value starting at `i`, after any leading whitespace.
/// Returns the value and the index just after it.
pub open spec fn spec_parse_value(s: Seq<char>, i: int) -> Option<(JsonV, int)>
    decreases s.len() - i, 0int,
{
    let j = spec_skip_ws(s, i);
    if !(i <= j < s.len()) {
        None
    } else if s[j] == 'n' {
        if s.len() - j >= 4 && s[j + 1] == 'u' && s[j + 2] == 'l' && s[j + 3] == 'l' {
            Some((JsonV::Null, j + 4))
        } else {
            None
        }
    } else if s[j] == '"' {
        match spec_parse_string_body(s, j + 1) {
            Some(p) => Some((JsonV::Str(p.0), p.1)),
            None => None,
        }
    } else if is_digit_char(s[j]) {
        let e = spec_digits_end(s, j);
        let v = spec_digits_val(s, j, e);
        if v <= u64::MAX {
            Some((JsonV::UInt(v as u64), e))
        } else {
            None
        }
    } else if s[j] == '[' {
        match spec_parse_elems(s, j + 1) {
            Some(p) => Some((JsonV::Arr(p.0), p.1)),
            None => None,
        }
    } else if s[j] == '{' {
        match spec_parse_members(s, j + 1) {
            Some(p) => Some((JsonV::Obj(p.0), p.1)),
            None => None,
        }
    } else {
        None
    }
}

/// Parses the elements of an array starting at `i` (just after `[`),
/// up to and including the closing bracket. A sub-parse that would not
/// advance is rejected outright, which keeps the grammar well-founded.
pub open spec fn spec_parse_elems(s: Seq<char>, i: int) -> Option<(Seq<JsonV>, int)>
    decreases s.len() - i, 1int,
{
    let j = spec_skip_ws(s, i);
    if !(i <= j < s.len()) {
        None
    } else if s[j] == ']' {
        Some((Seq::empty(), j + 1))
    } else {
        match spec_parse_value(s, j) {
            Some(p) => {
                let e = p.1;
                if !(j < e <= s.len()) {
                    None
                } else {
                    let k = spec_skip_ws(s, e);
                    if !(e <= k < s.len()) {
                        None
                    } else if s[k] == ',' {
                        match spec_parse_elems(s, k + 1) {
                            Some(q) => Some((seq![p.0] + q.0, q.1)),
                            None => None,
                        }
                    } else if s[k] == ']' {
                        Some((seq![p.0], k + 1))
                    } else {
                        None
                    }
                }
            },
            None => None,
        }
    }
}

/// Parses the members of an object starting at `i` (just after `{`),
/// up to and including the closing brace.
pub open spec fn spec_parse_members(s: Seq<char>, i: int) -> Option<(Seq<(Seq<char>, JsonV)>, int)>
    decreases s.len() - i, 1int,
{
    let j = spec_skip_ws(s, i);
    if !(i <= j < s.len()) {
        None
    } else if s[j] == '}' {
        Some((Seq::empty(), j + 1))
    } else if s[j] == '"' {
        match spec_parse_string_body(s, j + 1) {
            Some(kp) => {
                let e = kp.1;
                if !(j < e <= s.len()) {
                    None
                } else {
                    let k = spec_skip_ws(s, e);
                    if !(e <= k < s.len() && s[k] == ':') {
                        None
                    } else {
                        match spec_parse_value(s, k + 1) {
                            Some(vp) => {
                                let e2 = vp.1;
                                if !(k < e2 <= s.len()) {
                                    None
                                } else {
                                    let m = spec_skip_ws(s, e2);
                                    if !(e2 <= m < s.len()) {
                                        None
                                    } else if s[m] == ',' {
                                        match spec_parse_members(s, m + 1) {
                                            Some(q) => Some((seq![(kp.0, vp.0)] + q.0, q.1)),
                                            None => None,
                                        }
                                    } else if s[m] == '}' {
                                        Some((seq![(kp.0, vp.0)], m + 1))
                                    } else {
                                        None
                                    }
                                }
                            },
                            None => None,
                        }
                    }
                }
            },
            None => None,
        }
    } else {
        None
    }
}

/// Parses a whole body as one JSON value with nothing but whitespace around it.
pub open spec fn spec_parse_json(s: Seq<char>) -> Option<JsonV> {
    match spec_parse_value(s, 0) {
        Some(p) => if spec_skip_ws(s, p.1) == s.len() {
            Some(p.0)
        } else {
            None
        },
        None => None,
    }
}

/// A prefix of already-parsed characters joined onto the outcome of parsing
/// the rest of a string body.
spec fn str_join(pre: Seq<char>, r: Option<(Seq<char>, int)>) -> Option<(Seq<char>, int)> {
    match r {
        Some(p) => Some((pre + p.0, p.1)),
        None => None,
    }
}

/// A prefix of already-parsed elements joined onto the outcome of parsing
/// the rest of an array.
spec fn elems_join(pre: Seq<JsonV>, r: Option<(Seq<JsonV>, int)>) -> Option<
    (Seq<JsonV>, int),
> {
    match r {
        Some(p) => Some((pre + p.0, p.1)),
        None => None,
    }
}

/// A prefix of already-parsed members joined onto the outcome of parsing
/// the rest of an object.
spec fn members_join(
    pre: Seq<(Seq<char>, JsonV)>,
    r: Option<(Seq<(Seq<char>, JsonV)>, int)>,
) -> Option<(Seq<(Seq<char>, JsonV)>, int)> {
    match r {
        Some(p) => Some((pre + p.0, p.1)),
        None => None,
    }
}

proof fn lemma_arr_view_push(v: Seq<Json>, x: Json)
    ensures
        arr_view(v.push(x)) == arr_view(v) + seq![x@],
{
    assert(arr_view(v.push(x)) =~= arr_view(v) + seq![x@]);
}

proof fn lemma_obj_view_push(v: Seq<(String, Json)>, x: (String, Json))
    ensures
        obj_view(v.push(x)) == obj_view(v) + seq![(x.0@, x.1@)],
{
    assert(obj_view(v.push(x)) =~= obj_view(v) + seq![(x.0@, x.1@)]);
}

fn is_ws_char_exec(c: char) -> (r: bool)
    ensures
        r == is_ws_char(c),
{
    c == ' ' || c == '\n' || c == '\t' || c == '\r'
}

fn is_digit_char_exec(c: char) -> (r: bool)
    ensures
        r == is_digit_char(c),
{
    let u = c as u32;
    48 <= u && u <= 57
}

fn unescape_char_exec(c: char) -> (r: Option<char>)
    ensures
        r == spec_unescape_char(c),
{
    if c == '"' {
        Some('"')
    } else if c == '\\' {
        Some('\\')
    } else if c == '/' {
        Some('/')
    } else if c == 'n' {
        Some('\n')
    } else if c == 't' {
        Some('\t')
    } else if c == 'r' {
        Some('\r')
    } else if c == 'b' {
        Some('\u{0008}')
    } else if c == 'f' {
        Some('\u{000C}')
    } else {
        None
    }
}

/// Advances past whitespace.
fn skip_ws(s: &str, i: usize) -> (r: usize)
    requires
        i <= s@.len(),
    ensures
        r == spec_skip_ws(s@, i as int),
        i <= r <= s@.len(),
{
    let n = s.unicode_len();
    let mut j = i;
    while j < n && is_ws_char_exec(s.get_char(j))
        invariant
            i <= j <= n,
            n == s@.len(),
            spec_skip_ws(s@, i as int) == spec_skip_ws(s@, j as int),
        decreases n - j,
    {
        j = j + 1;
    }
    j
}

/// Parses the inside of a string literal, returning the unescaped contents
/// and the index just after the closing quote.
fn parse_string_body(s: &str, i: usize) -> (r: Option<(String, usize)>)
    requires
        i <= s@.len(),
    ensures
        match r {
            Some(p) => spec_parse_string_body(s@, i as int) == Some((p.0@, p.1 as int)) && i < p.1
                <= s@.len(),
            None => spec_parse_string_body(s@, i as int) is None,
        },
{
    let n = s.unicode_len();
    let mut acc = String::new();
    let mut cur = i;
    proof {
        assert(str_join(Seq::empty(), spec_parse_string_body(s@, i as int)) == spec_parse_string_body(
            s@,
            i as int,
        )) by {
            match spec_parse_string_body(s@, i as int) {
                Some(p) => {
                    assert(Seq::<char>::empty() + p.0 =~= p.0);
                },
                None => {},
            }
        }
    }
    loop
        invariant
            i <= cur <= n,
            n == s@.len(),
            spec_parse_string_body(s@, i as int) == str_join(
                acc@,
                spec_parse_string_body(s@, cur as int),
            ),
        decreases n - cur,
    {
        if cur >= n {
            return None;
        }
        let c = s.get_char(cur);
        if c == '"' {
            proof {
                assert(acc@ + Seq::<char>::empty() =~= acc@);
            }
            return Some((acc, cur + 1));
        } else if c == '\\' {
            if cur + 1 >= n {
                return None;
            }
            let c2 = s.get_char(cur + 1);
            match unescape_char_exec(c2) {
                Some(u) => {
                    proof {
                        match spec_parse_string_body(s@, cur as int + 2) {
                            Some(p) => {
                                assert(acc@ + (seq![u] + p.0) =~= acc@.push(u) + p.0);
                            },
                            None => {},
                        }
                    }
                    acc.push(u);
                    cur = cur + 2;
                },
                None => {
                    return None;
                },
            }
        } else {
            proof {
                match spec_parse_string_body(s@, cur as int + 1) {
                    Some(p) => {
                        assert(acc@ + (seq![c] + p.0) =~= acc@.push(c) + p.0);
                    },
                    None => {},
                }
            }
            acc.push(c);
            cur = cur + 1;
        }
    }
}

proof fn lemma_digits_val_nonneg(s: Seq<char>, i: int, e: int)
    requires
        i <= e,
        forall|k: int| i <= k < e ==> is_digit_char(s[k]),
    ensures
        0 <= spec_digits_val(s, i, e),
    decreases e - i,
{
    if i < e {
        lemma_digits_val_nonneg(s, i, e - 1);
    }
}

proof fn lemma_digits_val_mono(s: Seq<char>, i: int, m: int, e: int)
    requires
        i <= m <= e,
        forall|k: int| i <= k < e ==> is_digit_char(s[k]),
    ensures
        spec_digits_val(s, i, e) >= spec_digits_val(s, i, m),
    decreases e - m,
{
    if m < e {
        lemma_digits_val_mono(s, i, m, e - 1);
        lemma_digits_val_nonneg(s, i, e - 1);
    }
}

/// Parses the maximal digit run starting at `j` as an unsigned integer,
/// failing exactly when the numeral does not fit.
fn parse_number(s: &str, j: usize) -> (r: Option<(u64, usize)>)
    requires
        j < s@.len(),
        is_digit_char(s@[j as int]),
    ensures
        ({
            let e = spec_digits_end(s@, j as int);
            let v = spec_digits_val(s@, j as int, e);
            match r {
                Some(p) => v <= u64::MAX && p.0 == v && p.1 == e && j < p.1 <= s@.len(),
                None => v > u64::MAX,
            }
        }),
{
    let n = s.unicode_len();
    let mut e = j;
    while e < n && is_digit_char_exec(s.get_char(e))
        invariant
            j <= e <= n,
            n == s@.len(),
            spec_digits_end(s@, j as int) == spec_digits_end(s@, e as int),
            forall|k: int| j <= k < e ==> is_digit_char(s@[k]),
        decreases n - e,
    {
        e = e + 1;
    }
    let ghost ge = spec_digits_end(s@, j as int);
    proof {
        assert(ge == e);
        assert(e != j);
    }
    let mut acc: u64 = 0;
    let mut m = j;
    while m < e
        invariant
            j <= m <= e <= n,
            n == s@.len(),
            e == spec_digits_end(s@, j as int),
            forall|k: int| j <= k < e ==> is_digit_char(s@[k]),
            acc == spec_digits_val(s@, j as int, m as int),
        decreases e - m,
    {
        let c = s.get_char(m);
        let d = (c as u32 - 48) as u64;
        proof {
            assert(d == digit_val(s@[m as int]));
            assert(d <= 9);
        }
        if acc > (u64::MAX - d) / 10 {
            proof {
                let md = (u64::MAX - d) as int;
                assert(md == 10 * (md / 10) + md % 10);
                assert(acc * 10 >= (md / 10) * 10 + 10);
                assert(acc * 10 + d > u64::MAX);
                assert(spec_digits_val(s@, j as int, m as int + 1) == acc * 10 + d);
                lemma_digits_val_mono(s@, j as int, m as int + 1, e as int);
            }
            return None;
        }
        proof {
            let md = (u64::MAX - d) as int;
            assert(md == 10 * (md / 10) + md % 10);
            assert(acc * 10 <= (md / 10) * 10);
            assert(acc * 10 + d <= u64::MAX);
        }
        acc = acc * 10 + d;
        m = m + 1;
    }
    Some((acc, e))
}

/// Parses one JSON value starting at `i`; returns the value and the index
/// just after it.
pub fn parse_value(s: &str, i: usize) -> (r: Option<(Json, usize)>)
    requires
        i <= s@.len(),
    ensures
        match r {
            Some(p) => spec_parse_value(s@, i as int) == Some((p.0@, p.1 as int)) && i < p.1
                <= s@.len(),
            None => spec_parse_value(s@, i as int) is None,
        },
    decreases s@.len() - i, 0int,
{
    let n = s.unicode_len();
    let j = skip_ws(s, i);
    if j >= n {
        return None;
    }
    let c = s.get_char(j);
    if c == 'n' {
        if n - j >= 4 && s.get_char(j + 1) == 'u' && s.get_char(j + 2) == 'l' && s.get_char(j + 3)
            == 'l' {
            Some((Json::Null, j + 4))
        } else {
            None
        }
    } else if c == '"' {
        match parse_string_body(s, j + 1) {
            Some(p) => Some((Json::Str(p.0), p.1)),
            None => None,
        }
    } else if is_digit_char_exec(c) {
        match parse_number(s, j) {
            Some(p) => Some((Json::UInt(p.0), p.1)),
            None => None,
        }
    } else if c == '[' {
        match parse_elems(s, j + 1) {
            Some(p) => Some((Json::Arr(p.0), p.1)),
            None => None,
        }
    } else if c == '{' {
        match parse_members(s, j + 1) {
            Some(p) => Some((Json::Obj(p.0), p.1)),
            None => None,
        }
    } else {
        None
    }
}

/// Parses the elements of an array, starting just after the opening bracket.
fn parse_elems(s: &str, i: usize) -> (r: Option<(Vec<Json>, usize)>)
    requires
        i <= s@.len(),
    ensures
        match r {
            Some(p) => spec_parse_elems(s@, i as int) == Some((arr_view(p.0@), p.1 as int)) && i
                < p.1 <= s@.len(),
            None => spec_parse_elems(s@, i as int) is None,
        },
    decreases s@.len() - i, 1int,
{
    let n = s.unicode_len();
    let mut acc: Vec<Json> = Vec::new();
    let mut cur = i;
    proof {
        assert(arr_view(acc@) =~= Seq::<JsonV>::empty());
        assert(elems_join(Seq::empty(), spec_parse_elems(s@, i as int)) == spec_parse_elems(
            s@,
            i as int,
        )) by {
            match spec_parse_elems(s@, i as int) {
                Some(p) => {
                    assert(Seq::<JsonV>::empty() + p.0 =~= p.0);
                },
                None => {},
            }
        }
    }
    loop
        invariant
            i <= cur <= n,
            n == s@.len(),
            spec_parse_elems(s@, i as int) == elems_join(
                arr_view(acc@),
                spec_parse_elems(s@, cur as int),
            ),
        decreases n - cur,
    {
        let j = skip_ws(s, cur);
        if j >= n {
            return None;
        }
        if s.get_char(j) == ']' {
            proof {
                assert(arr_view(acc@) + Seq::<JsonV>::empty() =~= arr_view(acc@));
            }
            return Some((acc, j + 1));
        }
        let vp = parse_value(s, j);
        match vp {
            Some(p) => {
                let (v, e) = p;
                let k = skip_ws(s, e);
                if k >= n {
                    return None;
                }
                let c2 = s.get_char(k);
                if c2 == ',' {
                    proof {
                        lemma_arr_view_push(acc@, v);
                        match spec_parse_elems(s@, k as int + 1) {
                            Some(q) => {
                                assert(arr_view(acc@) + (seq![v@] + q.0) =~= arr_view(
                                    acc@.push(v),
                                ) + q.0);
                            },
                            None => {},
                        }
                    }
                    acc.push(v);
                    cur = k + 1;
                } else if c2 == ']' {
                    proof {
                        lemma_arr_view_push(acc@, v);
                        assert(arr_view(acc@) + seq![v@] =~= arr_view(acc@.push(v)));
                    }
                    acc.push(v);
                    return Some((acc, k + 1));
                } else {
                    return None;
                }
            },
            None => {
                return None;
            },
        }
    }
}

/// Parses the members of an object, starting just after the opening brace.
fn parse_members(s: &str, i: usize) -> (r: Option<(Vec<(String, Json)>, usize)>)
    requires
        i <= s@.len(),
    ensures
        match r {
            Some(p) => spec_parse_members(s@, i as int) == Some((obj_view(p.0@), p.1 as int)) && i
                < p.1 <= s@.len(),
            None => spec_parse_members(s@, i as int) is None,
        },
    decreases s@.len() - i, 1int,
{
    let n = s.unicode_len();
    let mut acc: Vec<(String, Json)> = Vec::new();
    let mut cur = i;
    proof {
        assert(obj_view(acc@) =~= Seq::<(Seq<char>, JsonV)>::empty());
        assert(members_join(Seq::empty(), spec_parse_members(s@, i as int)) == spec_parse_members(
            s@,
            i as int,
        )) by {
            match spec_parse_members(s@, i as int) {
                Some(p) => {
                    assert(Seq::<(Seq<char>, JsonV)>::empty() + p.0 =~= p.0);
                },
                None => {},
            }
        }
    }
    loop
        invariant
            i <= cur <= n,
            n == s@.len(),
            spec_parse_members(s@, i as int) == members_join(
                obj_view(acc@),
                spec_parse_members(s@, cur as int),
            ),
        decreases n - cur,
    {
        let j = skip_ws(s, cur);
        if j >= n {
            return None;
        }
        let c = s.get_char(j);
        if c == '}' {
            proof {
                assert(obj_view(acc@) + Seq::<(Seq<char>, JsonV)>::empty() =~= obj_view(acc@));
            }
            return Some((acc, j + 1));
        }
        if c != '"' {
            return None;
        }
        match parse_string_body(s, j + 1) {
            Some(kp) => {
                let (key, e) = kp;
                let k = skip_ws(s, e);
                if k >= n || s.get_char(k) != ':' {
                    return None;
                }
                match parse_value(s, k + 1) {
                    Some(vp) => {
                        let (v, e2) = vp;
                        let m = skip_ws(s, e2);
                        if m >= n {
                            return None;
                        }
                        let c2 = s.get_char(m);
                        if c2 == ',' {
                            proof {
                                lemma_obj_view_push(acc@, (key, v));
                                match spec_parse_members(s@, m as int + 1) {
                                    Some(q) => {
                                        assert(obj_view(acc@) + (seq![(key@, v@)] + q.0)
                                            =~= obj_view(acc@.push((key, v))) + q.0);
                                    },
                                    None => {},
                                }
                            }
                            acc.push((key, v));
                            cur = m + 1;
                        } else if c2 == '}' {
                            proof {
                                lemma_obj_view_push(acc@, (key, v));
                                assert(obj_view(acc@) + seq![(key@, v@)] =~= obj_view(
                                    acc@.push((key, v)),
                                ));
                            }
                            acc.push((key, v));
                            return Some((acc, m + 1));
                        } else {
                            return None;
                        }
                    },
                    None => {
                        return None;
                    },
                }
            },
            None => {
                return None;
            },
        }
    }
}

/// Parses a whole body as one JSON value with nothing but whitespace
/// around it.
pub fn parse_json(s: &str) -> (r: Option<Json>)
    ensures
        match r {
            Some(j) => spec_parse_json(s@) == Some(j@),
            None => spec_parse_json(s@) is None,
        },
{
    match parse_value(s, 0) {
        Some(p) => {
            let (j, e) = p;
            let k = skip_ws(s, e);
            if k == s.unicode_len() {
                Some(j)
            } else {
                None
            }
        },
        None => None,
    }
}

/// The serialized form of one string character: quotes and backslashes are
/// escaped, every other character stands for itself.
pub open spec fn spec_esc_char(c: char) -> Seq<char> {
    if c == '"' {
        seq!['\\', '"']
    } else if c == '\\' {
        seq!['\\', '\\']
    } else {
        seq![c]
    }
}

/// The serialized form of a string's contents, without the quotes.
pub open spec fn spec_escape(t: Seq<char>) -> Seq<char>
    decreases t.len(),
{
    if t.len() == 0 {
        Seq::empty()
    } else {
        spec_esc_char(t[0]) + spec_escape(t.drop_first())
    }
}

/// The decimal numeral of a non-negative integer, most significant digit first.
pub open spec fn spec_decimal(n: int) -> Seq<char>
    decreases n,
{
    if n <= 9 {
        seq![digit_char(n)]
    } else {
        spec_decimal(n / 10) + seq![digit_char(n % 10)]
    }
}

/// The canonical serialized text of a JSON value: no whitespace, keys and
/// elements in the order they are held.
pub open spec fn spec_ser(j: JsonV) -> Seq<char>
    decreases j, 1int,
{
    match j {
        JsonV::Null => seq!['n', 'u', 'l', 'l'],
        JsonV::UInt(n) => spec_decimal(n as int),
        JsonV::Str(t) => seq!['"'] + spec_escape(t) + seq!['"'],
        JsonV::Arr(elems) => seq!['['] + spec_ser_elems(elems) + seq![']'],
        JsonV::Obj(members) => seq!['{'] + spec_ser_members(members) + seq!['}'],
    }
}

/// The serialized elements of an array, comma separated.
pub open spec fn spec_ser_elems(elems: Seq<JsonV>) -> Seq<char>
    decreases elems, 0int,
{
    if elems.len() == 0 {
        Seq::empty()
    } else if elems.len() == 1 {
        spec_ser(elems[0])
    } else {
        spec_ser(elems[0]) + seq![','] + spec_ser_elems(elems.drop_first())
    }
}

/// The serialized form of one object member.
pub open spec fn spec_ser_member(m: (Seq<char>, JsonV)) -> Seq<char>
    decreases m, 1int,
{
    seq!['"'] + spec_escape(m.0) + seq!['"', ':'] + spec_ser(m.1)
}

/// The serialized members of an object, comma separated.
pub open spec fn spec_ser_members(members: Seq<(Seq<char>, JsonV)>) -> Seq<char>
    decreases members, 0int,
{
    if members.len() == 0 {
        Seq::empty()
    } else if members.len() == 1 {
        spec_ser_member(members[0])
    } else {
        spec_ser_member(members[0]) + seq![','] + spec_ser_members(members.drop_first())
    }
}

/// Serializes a string's contents with escaping, without the quotes.
fn escape_str(t: &str) -> (r: String)
    ensures
        r@ == spec_escape(t@),
{
    let n = t.unicode_len();
    let mut r = String::new();
    let mut k: usize = 0;
    proof {
        assert(t@.skip(0) =~= t@);
    }
    while k < n
        invariant
            k <= n,
            n == t@.len(),
            r@ + spec_escape(t@.skip(k as int)) == spec_escape(t@),
        decreases n - k,
    {
        let ghost old_r = r@;
        let ghost rest = t@.skip(k as int);
        let c = t.get_char(k);
        proof {
            assert(rest.len() > 0);
            assert(rest[0] == t@[k as int]);
            assert(rest.drop_first() =~= t@.skip(k as int + 1));
        }
        if c == '"' {
            r.push('\\');
            r.push('"');
            proof {
                assert(r@ =~= old_r + spec_esc_char(c));
            }
        } else if c == '\\' {
            r.push('\\');
            r.push('\\');
            proof {
                assert(r@ =~= old_r + spec_esc_char(c));
            }
        } else {
            r.push(c);
            proof {
                assert(r@ =~= old_r + spec_esc_char(c));
            }
        }
        proof {
            assert((old_r + spec_esc_char(c)) + spec_escape(t@.skip(k as int + 1)) =~= old_r + (
            spec_esc_char(c) + spec_escape(t@.skip(k as int + 1))));
            assert(spec_escape(rest) == spec_esc_char(c) + spec_escape(t@.skip(k as int + 1)));
        }
        k = k + 1;
    }
    proof {
        assert(t@.skip(n as int) =~= Seq::<char>::empty());
        assert(r@ + Seq::<char>::empty() =~= r@);
    }
    r
}

/// Writes a non-negative integer as its decimal numeral.
pub fn u64_to_string(n: u64) -> (r: String)
    ensures
        r@ == spec_decimal(n as int),
    decreases n,
{
    if n <= 9 {
        let mut r = String::new();
        r.push((48 + n as u8) as char);
        proof {
            assert(r@ =~= seq![digit_char(n as int)]);
        }
        r
    } else {
        let mut r = u64_to_string(n / 10);
        r.push((48 + (n % 10) as u8) as char);
        proof {
            assert((n / 10) as int == n as int / 10);
            assert((n % 10) as int == n as int % 10);
            assert(r@ =~= spec_decimal(n as int / 10) + seq![digit_char(n as int % 10)]);
        }
        r
    }
}

/// Serializes a JSON value as its canonical text.
#[verifier::loop_isolation(false)]
pub fn ser_json(j: &Json) -> (r: String)
    ensures
        r@ == spec_ser(j@),
    decreases j,
{
    match j {
        Json::Null => {
            let mut r = String::new();
            r.push('n');
            r.push('u');
            r.push('l');
            r.push('l');
            proof {
                assert(r@ =~= seq!['n', 'u', 'l', 'l']);
            }
            r
        },
        Json::UInt(n) => u64_to_string(*n),
        Json::Str(t) => {
            let mut r = String::new();
            r.push('"');
            let esc = escape_str(t.as_str());
            r.append(esc.as_str());
            r.push('"');
            proof {
                assert(r@ =~= seq!['"'] + spec_escape(t@) + seq!['"']);
            }
            r
        },
        Json::Arr(v) => {
            let mut r = String::new();
            r.push('[');
            let ghost elems = arr_view(v@);
            let mut k: usize = 0;
            proof {
                assert(elems.skip(0) =~= elems);
                assert(r@ =~= seq!['[']);
            }
            while k < v.len()
                invariant
                    k <= v@.len(),
                    elems == arr_view(v@),
                    elems.len() == v@.len(),
                    r@ + spec_ser_elems(elems.skip(k as int)) == seq!['['] + spec_ser_elems(elems),
                decreases v@.len() - k,
            {
                let ghost old_r = r@;
                let ghost rest = elems.skip(k as int);
                proof {
                    assert(rest.len() > 0);
                    assert(rest[0] == elems[k as int]);
                    assert(elems[k as int] == v@[k as int]@);
                    assert(rest.drop_first() =~= elems.skip(k as int + 1));
                    assert(*j == Json::Arr(*v));
                    assert(decreases_to!(Json::Arr(*v) => *v));
                    assert(decreases_to!(*v => v@));
                    assert(decreases_to!(v@ => v@[k as int]));
                }
                let sub = ser_json(&v[k]);
                r.append(sub.as_str());
                if k + 1 < v.len() {
                    r.push(',');
                    proof {
                        assert(rest.len() != 1);
                        assert(spec_ser_elems(rest) == spec_ser(rest[0]) + seq![',']
                            + spec_ser_elems(rest.drop_first()));
                        assert(r@ =~= old_r + (spec_ser(rest[0]) + seq![',']));
                        assert((old_r + (spec_ser(rest[0]) + seq![','])) + spec_ser_elems(
                            elems.skip(k as int + 1),
                        ) =~= old_r + spec_ser_elems(rest));
                    }
                } else {
                    proof {
                        assert(rest.len() == 1);
                        assert(spec_ser_elems(rest) == spec_ser(rest[0]));
                        assert(elems.skip(k as int + 1) =~= Seq::<JsonV>::empty());
                        assert(r@ + spec_ser_elems(elems.skip(k as int + 1)) =~= old_r
                            + spec_ser_elems(rest));
                    }
                }
                k = k + 1;
            }
            r.push(']');
            proof {
                assert(elems.skip(v@.len() as int) =~= Seq::<JsonV>::empty());
                assert(r@ =~= seq!['['] + spec_ser_elems(elems) + seq![']']);
            }
            r
        },
        Json::Obj(v) => {
            let mut r = String::new();
            r.push('{');
            let ghost members = obj_view(v@);
            let mut k: usize = 0;
            proof {
                assert(members.skip(0) =~= members);
                assert(r@ =~= seq!['{']);
            }
            while k < v.len()
                invariant
                    k <= v@.len(),
                    members == obj_view(v@),
                    members.len() == v@.len(),
                    r@ + spec_ser_members(members.skip(k as int)) == seq!['{'] + spec_ser_members(
                        members,
                    ),
                decreases v@.len() - k,
            {
                let ghost old_r = r@;
                let ghost rest = members.skip(k as int);
                proof {
                    assert(rest.len() > 0);
                    assert(rest[0] == members[k as int]);
                    assert(members[k as int] == (v@[k as int].0@, v@[k as int].1@));
                    assert(rest.drop_first() =~= members.skip(k as int + 1));
                }
                r.push('"');
                let esc = escape_str(v[k].0.as_str());
                r.append(esc.as_str());
                r.push('"');
                r.push(':');
                proof {
                    assert(*j == Json::Obj(*v));
                    assert(decreases_to!(Json::Obj(*v) => *v));
                    assert(decreases_to!(*v => v@));
                    assert(decreases_to!(v@ => v@[k as int]));
                    assert(decreases_to!(v@[k as int] => v@[k as int].1));
                }
                let sub = ser_json(&v[k].1);
                r.append(sub.as_str());
                proof {
                    assert(spec_ser_member(rest[0]) == seq!['"'] + spec_escape(rest[0].0) + seq![
                        '"',
                        ':',
                    ] + spec_ser(rest[0].1));
                    assert(r@ =~= old_r + spec_ser_member(rest[0]));
                }
                if k + 1 < v.len() {
                    r.push(',');
                    proof {
                        assert(rest.len() != 1);
                        assert(spec_ser_members(rest) == spec_ser_member(rest[0]) + seq![',']
                            + spec_ser_members(rest.drop_first()));
                        assert(r@ + spec_ser_members(members.skip(k as int + 1)) =~= old_r
                            + spec_ser_members(rest));
                    }
                } else {
                    proof {
                        assert(rest.len() == 1);
                        assert(spec_ser_members(rest) == spec_ser_member(rest[0]));
                        assert(members.skip(k as int + 1) =~= Seq::<(Seq<char>, JsonV)>::empty());
                        assert(r@ + spec_ser_members(members.skip(k as int + 1)) =~= old_r
                            + spec_ser_members(rest));
                    }
                }
                k = k + 1;
            }
            r.push('}');
            proof {
                assert(members.skip(v@.len() as int) =~= Seq::<(Seq<char>, JsonV)>::empty());
                assert(r@ =~= seq!['{'] + spec_ser_members(members) + seq!['}']);
            }
            r
        },
    }
}


/// `u` occurs in `s` starting at position `i`.
spec fn has_at(s: Seq<char>, i: int, u: Seq<char>) -> bool {
    0 <= i && i + u.len() <= s.len() && s.subrange(i, i + u.len()) == u
}

proof fn lemma_has_at_index(s: Seq<char>, i: int, u: Seq<char>)
    requires
        has_at(s, i, u),
    ensures
        forall|k: int| i <= k < i + u.len() ==> #[trigger] s[k] == u[k - i],
{
    assert forall|k: int| i <= k < i + u.len() implies #[trigger] s[k] == u[k - i] by {
        assert(s.subrange(i, i + u.len())[k - i] == s[k]);
    }
}

proof fn lemma_has_at_concat(s: Seq<char>, i: int, u: Seq<char>, v: Seq<char>)
    requires
        has_at(s, i, u + v),
    ensures
        has_at(s, i, u),
        has_at(s, i + u.len(), v),
{
    lemma_has_at_index(s, i, u + v);
    assert forall|k: int| 0 <= k < u.len() implies s.subrange(i, i + u.len())[k] == u[k] by {
        assert(s[i + k] == (u + v)[i + k - i]);
    }
    assert(s.subrange(i, i + u.len()) =~= u);
    assert forall|k: int| 0 <= k < v.len() implies s.subrange(
        i + u.len(),
        i + u.len() + v.len(),
    )[k] == v[k] by {
        assert(s[i + u.len() + k] == (u + v)[i + u.len() + k - i]);
        assert((u + v)[u.len() + k] == v[k]);
    }
    assert(s.subrange(i + u.len(), i + u.len() + v.len()) =~= v);
}

/// The decimal numeral of a non-negative integer is a non-empty digit run.
proof fn lemma_decimal_digits(n: int)
    requires
        0 <= n,
    ensures
        spec_decimal(n).len() >= 1,
        forall|k: int| 0 <= k < spec_decimal(n).len() ==> is_digit_char(#[trigger] spec_decimal(n)[k]),
    decreases n,
{
    if n <= 9 {
        assert(digit_char(n) as int == 48 + n);
        assert(is_digit_char(spec_decimal(n)[0]));
    } else {
        lemma_decimal_digits(n / 10);
        assert(0 <= n % 10 <= 9);
        assert(digit_char(n % 10) as int == 48 + n % 10);
        assert forall|k: int| 0 <= k < spec_decimal(n).len() implies is_digit_char(
            #[trigger] spec_decimal(n)[k],
        ) by {
            if k < spec_decimal(n / 10).len() {
                assert(spec_decimal(n)[k] == spec_decimal(n / 10)[k]);
            } else {
                assert(spec_decimal(n)[k] == digit_char(n % 10));
            }
        }
    }
}

/// A maximal digit run ends exactly where the digits stop.
proof fn lemma_digits_end_run(s: Seq<char>, i: int, e: int)
    requires
        0 <= i <= e <= s.len(),
        forall|k: int| i <= k < e ==> is_digit_char(s[k]),
        e == s.len() || !is_digit_char(s[e]),
    ensures
        spec_digits_end(s, i) == e,
    decreases e - i,
{
    if i < e {
        lemma_digits_end_run(s, i + 1, e);
    }
}

/// Reading back the decimal numeral of `n` yields `n`.
proof fn lemma_decimal_val(s: Seq<char>, i: int, n: int)
    requires
        0 <= n,
        has_at(s, i, spec_decimal(n)),
    ensures
        spec_digits_val(s, i, i + spec_decimal(n).len()) == n,
    decreases n,
{
    lemma_has_at_index(s, i, spec_decimal(n));
    if n <= 9 {
        assert(digit_char(n) as int == 48 + n);
        assert(s[i] == digit_char(n));
        assert(spec_digits_val(s, i, i + 1) == spec_digits_val(s, i, i) * 10 + digit_val(s[i]));
    } else {
        let u = spec_decimal(n / 10);
        let l = spec_decimal(n).len();
        assert(spec_decimal(n) == u + seq![digit_char(n % 10)]);
        lemma_has_at_concat(s, i, u, seq![digit_char(n % 10)]);
        lemma_decimal_val(s, i, n / 10);
        assert(s[i + l - 1] == digit_char(n % 10));
        assert(digit_char(n % 10) as int == 48 + n % 10);
        assert(spec_digits_val(s, i, i + l) == spec_digits_val(s, i, i + l - 1) * 10 + digit_val(
            s[i + l - 1],
        ));
        assert(spec_digits_val(s, i, i + l) == (n / 10) * 10 + n % 10);
    }
}

/// The first character of a serialized value: never whitespace and never a
/// closing delimiter, a comma or a colon.
proof fn lemma_ser_first(j: JsonV)
    ensures
        spec_ser(j).len() >= 1,
        ({
            let c = spec_ser(j)[0];
            (c == 'n' || c == '"' || c == '[' || c == '{' || is_digit_char(c)) && !is_ws_char(c)
                && c != ']' && c != '}' && c != ',' && c != ':'
        }),
{
    match j {
        JsonV::Null => {},
        JsonV::UInt(n) => {
            lemma_decimal_digits(n as int);
            let c = spec_ser(j)[0];
            assert(is_digit_char(c));
            assert(' ' as int == 32 && '\n' as int == 10 && '\t' as int == 9 && '\r' as int == 13
                && ']' as int == 93 && '}' as int == 125 && ',' as int == 44 && ':' as int == 58);
        },
        JsonV::Str(t) => {
            assert(spec_ser(j)[0] == '"');
        },
        JsonV::Arr(elems) => {
            assert(spec_ser(j)[0] == '[');
        },
        JsonV::Obj(members) => {
            assert(spec_ser(j)[0] == '{');
        },
    }
}

/// Parsing a string body that was produced by escaping yields the original
/// contents and stops at the closing quote.
proof fn lemma_parse_escape(t: Seq<char>, s: Seq<char>, i: int)
    requires
        has_at(s, i, spec_escape(t) + seq!['"']),
    ensures
        spec_parse_string_body(s, i) == Some((t, i + spec_escape(t).len() + 1)),
    decreases t.len(),
{
    lemma_has_at_index(s, i, spec_escape(t) + seq!['"']);
    if t.len() == 0 {
        assert(s[i] == '"');
        assert(spec_parse_string_body(s, i) == Some((Seq::<char>::empty(), i + 1)));
        assert(Seq::<char>::empty() =~= t);
    } else {
        let c = t[0];
        let rest = t.drop_first();
        assert(spec_escape(t) == spec_esc_char(c) + spec_escape(rest));
        assert((spec_esc_char(c) + spec_escape(rest)) + seq!['"'] =~= spec_esc_char(c) + (
        spec_escape(rest) + seq!['"']));
        lemma_has_at_concat(s, i, spec_esc_char(c), spec_escape(rest) + seq!['"']);
        lemma_has_at_index(s, i, spec_esc_char(c));
        let d = spec_esc_char(c).len();
        lemma_parse_escape(rest, s, i + d);
        if c == '"' {
            assert(s[i] == '\\' && s[i + 1] == '"');
            assert(spec_unescape_char('"') == Some('"'));
            assert(seq!['"'] + rest =~= t);
        } else if c == '\\' {
            assert(s[i] == '\\' && s[i + 1] == '\\');
            assert(seq!['\\'] + rest =~= t);
        } else {
            assert(s[i] == c);
            assert(seq![c] + rest =~= t);
        }
    }
}

/// Parsing text that was produced by serializing a value yields that value
/// back, provided no digit follows directly (which could extend a numeral).
#[verifier::rlimit(100)]
#[verifier::spinoff_prover]
proof fn lemma_parse_ser(j: JsonV, s: Seq<char>, i: int)
    requires
        has_at(s, i, spec_ser(j)),
        i + spec_ser(j).len() == s.len() || !is_digit_char(s[i + spec_ser(j).len()]),
    ensures
        spec_parse_value(s, i) == Some((j, i + spec_ser(j).len())),
    decreases j, 1int,
{
    let l = spec_ser(j).len();
    lemma_has_at_index(s, i, spec_ser(j));
    lemma_ser_first(j);
    assert(s[i] == spec_ser(j)[0]);
    assert(spec_skip_ws(s, i) == i);
    match j {
        JsonV::Null => {
            assert(s[i] == 'n' && s[i + 1] == 'u' && s[i + 2] == 'l' && s[i + 3] == 'l');
            assert('n' as int == 110);
        },
        JsonV::UInt(n) => {
            lemma_decimal_digits(n as int);
            assert('n' as int == 110 && '"' as int == 34);
            assert(s[i] != 'n' && s[i] != '"');
            lemma_digits_end_run(s, i, i + l);
            lemma_decimal_val(s, i, n as int);
        },
        JsonV::Str(t) => {
            assert(s[i] == '"');
            assert('n' as int == 110 && '"' as int == 34);
            assert(s[i] != 'n');
            assert(spec_ser(j) =~= seq!['"'] + (spec_escape(t) + seq!['"']));
            lemma_has_at_concat(s, i, seq!['"'], spec_escape(t) + seq!['"']);
            lemma_parse_escape(t, s, i + 1);
        },
        JsonV::Arr(elems) => {
            assert(s[i] == '[');
            assert('n' as int == 110 && '"' as int == 34 && '[' as int == 91);
            assert(s[i] != 'n' && s[i] != '"' && !is_digit_char(s[i]));
            assert(spec_ser(j) =~= seq!['['] + (spec_ser_elems(elems) + seq![']']));
            lemma_has_at_concat(s, i, seq!['['], spec_ser_elems(elems) + seq![']']);
            lemma_has_at_concat(s, i + 1, spec_ser_elems(elems), seq![']']);
            lemma_has_at_index(s, i + 1 + spec_ser_elems(elems).len(), seq![']']);
            lemma_parse_ser_elems(elems, s, i + 1);
        },
        JsonV::Obj(members) => {
            assert(s[i] == '{');
            assert('n' as int == 110 && '"' as int == 34 && '{' as int == 123);
            assert(s[i] != 'n' && s[i] != '"' && !is_digit_char(s[i]) && s[i] != '[');
            assert(spec_ser(j) =~= seq!['{'] + (spec_ser_members(members) + seq!['}']));
            lemma_has_at_concat(s, i, seq!['{'], spec_ser_members(members) + seq!['}']);
            lemma_has_at_concat(s, i + 1, spec_ser_members(members), seq!['}']);
            lemma_has_at_index(s, i + 1 + spec_ser_members(members).len(), seq!['}']);
            lemma_parse_ser_members(members, s, i + 1);
        },
    }
}

/// Companion to `lemma_parse_ser` for the elements of an array: the
/// serialized elements followed by `]` parse back to the same elements.
#[verifier::rlimit(80)]
proof fn lemma_parse_ser_elems(elems: Seq<JsonV>, s: Seq<char>, i: int)
    requires
        has_at(s, i, spec_ser_elems(elems)),
        i + spec_ser_elems(elems).len() < s.len(),
        s[i + spec_ser_elems(elems).len()] == ']',
    ensures
        spec_parse_elems(s, i) == Some((elems, i + spec_ser_elems(elems).len() + 1)),
    decreases elems, 0int,
{
    let l = spec_ser_elems(elems).len();
    lemma_has_at_index(s, i, spec_ser_elems(elems));
    if elems.len() == 0 {
        assert(s[i] == ']');
        assert(spec_skip_ws(s, i) == i);
        assert(Seq::<JsonV>::empty() =~= elems);
    } else {
        let e0 = elems[0];
        lemma_ser_first(e0);
        let l0 = spec_ser(e0).len();
        if elems.len() == 1 {
            assert(spec_ser_elems(elems) == spec_ser(e0));
            assert(s[i] == spec_ser(e0)[0]);
            assert(spec_skip_ws(s, i) == i && s[i] != ']');
            assert(']' as int == 93);
            lemma_parse_ser(e0, s, i);
            assert(spec_skip_ws(s, i + l0) == i + l0);
            assert(seq![e0] =~= elems);
        } else {
            let rest = elems.drop_first();
            assert(spec_ser_elems(elems) == spec_ser(e0) + seq![','] + spec_ser_elems(rest));
            assert((spec_ser(e0) + seq![','] + spec_ser_elems(rest)) =~= spec_ser(e0) + (seq![',']
                + spec_ser_elems(rest)));
            lemma_has_at_concat(s, i, spec_ser(e0), seq![','] + spec_ser_elems(rest));
            lemma_has_at_concat(s, i + l0, seq![','], spec_ser_elems(rest));
            lemma_has_at_index(s, i + l0, seq![',']);
            assert(s[i + l0] == ',');
            assert(',' as int == 44 && ']' as int == 93);
            assert(spec_skip_ws(s, i) == i && s[i] != ']');
            lemma_parse_ser(e0, s, i);
            assert(spec_skip_ws(s, i + l0) == i + l0);
            lemma_parse_ser_elems(rest, s, i + l0 + 1);
            assert(seq![e0] + rest =~= elems);
        }
    }
}

/// Companion to `lemma_parse_ser` for the members of an object.
#[verifier::rlimit(80)]
proof fn lemma_parse_ser_members(members: Seq<(Seq<char>, JsonV)>, s: Seq<char>, i: int)
    requires
        has_at(s, i, spec_ser_members(members)),
        i + spec_ser_members(members).len() < s.len(),
        s[i + spec_ser_members(members).len()] == '}',
    ensures
        spec_parse_members(s, i) == Some((members, i + spec_ser_members(members).len() + 1)),
    decreases members, 0int,
{
    let l = spec_ser_members(members).len();
    lemma_has_at_index(s, i, spec_ser_members(members));
    if members.len() == 0 {
        assert(s[i] == '}');
        assert(spec_skip_ws(s, i) == i);
        assert(Seq::<(Seq<char>, JsonV)>::empty() =~= members);
    } else {
        let m0 = members[0];
        let lm = spec_ser_member(m0).len();
        if members.len() == 1 {
            assert(spec_ser_members(members) == spec_ser_member(m0));
            lemma_parse_ser_member(m0, s, i);
            assert(spec_skip_ws(s, i + lm) == i + lm);
            assert(seq![m0] =~= members);
        } else {
            let rest = members.drop_first();
            assert(spec_ser_members(members) == spec_ser_member(m0) + seq![','] + spec_ser_members(
                rest,
            ));
            assert((spec_ser_member(m0) + seq![','] + spec_ser_members(rest)) =~= spec_ser_member(
                m0,
            ) + (seq![','] + spec_ser_members(rest)));
            lemma_has_at_concat(s, i, spec_ser_member(m0), seq![','] + spec_ser_members(rest));
            lemma_has_at_concat(s, i + lm, seq![','], spec_ser_members(rest));
            lemma_has_at_index(s, i + lm, seq![',']);
            assert(s[i + lm] == ',');
            assert(',' as int == 44 && '}' as int == 125);
            lemma_parse_ser_member(m0, s, i);
            assert(spec_skip_ws(s, i + lm) == i + lm);
            lemma_parse_ser_members(rest, s, i + lm + 1);
            assert(seq![m0] + rest =~= members);
        }
    }
}

/// One serialized member (`"key":value`) parses back to the same pair,
/// stated as far as `spec_parse_members` needs it: the key string, the
/// colon, and the value at their places.
#[verifier::rlimit(80)]
proof fn lemma_parse_ser_member(m: (Seq<char>, JsonV), s: Seq<char>, i: int)
    requires
        has_at(s, i, spec_ser_member(m)),
        i + spec_ser_member(m).len() < s.len(),
        s[i + spec_ser_member(m).len()] == ',' || s[i + spec_ser_member(m).len()] == '}',
    ensures
        s[i] == '"',
        spec_parse_string_body(s, i + 1) == Some(
            (m.0, i + 1 + spec_escape(m.0).len() + 1),
        ),
        ({
            let e = i + 2 + spec_escape(m.0).len();
            s[e] == ':' && spec_parse_value(s, e + 1) == Some(
                (m.1, i + spec_ser_member(m).len() as int),
            )
        }),
    decreases m, 1int,
{
    let esc = spec_escape(m.0);
    let sv = spec_ser(m.1);
    assert(spec_ser_member(m) =~= seq!['"'] + ((esc + seq!['"']) + (seq![':'] + sv)));
    lemma_has_at_concat(s, i, seq!['"'], (esc + seq!['"']) + (seq![':'] + sv));
    lemma_has_at_index(s, i, seq!['"']);
    lemma_has_at_concat(s, i + 1, esc + seq!['"'], seq![':'] + sv);
    lemma_has_at_concat(s, i + 1 + esc.len() + 1, seq![':'], sv);
    lemma_has_at_index(s, i + 1 + esc.len() + 1, seq![':']);
    lemma_parse_escape(m.0, s, i + 1);
    assert(',' as int == 44 && '}' as int == 125);
    lemma_parse_ser(m.1, s, i + 2 + esc.len() + 1);
}

/// Serializing any JSON value and parsing the text back yields the value:
/// the canonical text is a fixed point of the decode step.
pub proof fn lemma_parse_ser_json(j: JsonV)
    ensures
        spec_parse_json(spec_ser(j)) == Some(j),
{
    let s = spec_ser(j);
    assert(s.subrange(0, s.len() as int) =~= s);
    lemma_parse_ser(j, s, 0);
    assert(spec_skip_ws(s, s.len() as int) == s.len());
}

} // verus!
