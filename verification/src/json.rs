//! A plain model of JSON documents (as exchanged with the translation
//! services) and the lookups that the reply readers make in them.
use vstd::prelude::*;

use crate::text::{chars_of, str_eq};

verus! {

broadcast use vstd::string::group_string_axioms;

/// A JSON value. Numbers keep the text that a JSON writer gives them
/// (integers in decimal, other numbers with a '.' or an exponent); object
/// members keep their order, with unique keys.
pub enum Json {
    Null,
    Bool(bool),
    Number(String),
    Str(String),
    Array(Vec<Json>),
    Object(Vec<(String, Json)>),
}

/// The value of the first member of `entries`, from index `i` on, named `key`.
pub open spec fn member_from(entries: Seq<(String, Json)>, key: Seq<char>, i: int) -> Option<Json>
    decreases entries.len() - i,
{
    if i < 0 || i >= entries.len() {
        None
    } else if entries[i].0@ == key {
        Some(entries[i].1)
    } else {
        member_from(entries, key, i + 1)
    }
}

/// `j[key]` of an object; `None` for a missing key or a value that is not an object.
pub open spec fn field_of(j: Json, key: Seq<char>) -> Option<Json> {
    match j {
        Json::Object(entries) => member_from(entries@, key, 0),
        _ => None,
    }
}

/// `j[i]` of an array; `None` out of range or for a value that is not an array.
pub open spec fn item_of(j: Json, i: int) -> Option<Json> {
    match j {
        Json::Array(items) => if 0 <= i < items.len() {
            Some(items[i])
        } else {
            None
        },
        _ => None,
    }
}

/// The array index that a JSON-pointer token names: decimal digits without a
/// sign or a leading zero, within `usize`.
pub open spec fn token_index(t: Seq<char>) -> Option<nat> {
    if t.len() == 0 || t[0] == '+' || (t[0] == '0' && t.len() != 1) || !all_digits(t)
        || digits_value(t) > usize::MAX {
        None
    } else {
        Some(digits_value(t))
    }
}

/// One step of a JSON pointer: a member of an object, an element of an array.
pub open spec fn step_of(j: Json, token: Seq<char>) -> Option<Json> {
    match j {
        Json::Object(entries) => member_from(entries@, token, 0),
        Json::Array(items) => match token_index(token) {
            Some(i) => if i < items.len() {
                Some(items[i as int])
            } else {
                None
            },
            None => None,
        },
        _ => None,
    }
}

/// The text of a string value.
pub open spec fn str_of(j: Option<Json>) -> Option<Seq<char>> {
    match j {
        Some(Json::Str(s)) => Some(s@),
        _ => None,
    }
}

// ---------- decimal numbers ----------

pub open spec fn is_digit(c: char) -> bool {
    '0' <= c <= '9'
}

pub open spec fn all_digits(s: Seq<char>) -> bool {
    forall|i: int| 0 <= i < s.len() ==> is_digit(#[trigger] s[i])
}

/// The number that the decimal digits `s` write.
pub open spec fn digits_value(s: Seq<char>) -> nat
    decreases s.len(),
{
    if s.len() == 0 {
        0
    } else {
        digits_value(s.drop_last()) * 10 + ((s.last() as nat) - ('0' as nat)) as nat
    }
}

/// What `str::parse::<i64>` gives: an optional '+' or '-', then at least one
/// decimal digit, the value within `i64`.
pub open spec fn parse_i64_of(s: Seq<char>) -> Option<i64> {
    let neg = s.len() > 0 && s[0] == '-';
    let digits = if s.len() > 0 && (s[0] == '+' || s[0] == '-') {
        s.drop_first()
    } else {
        s
    };
    let v: int = if neg {
        -digits_value(digits)
    } else {
        digits_value(digits) as int
    };
    if digits.len() == 0 || !all_digits(digits) || v < i64::MIN || v > i64::MAX {
        None
    } else {
        Some(v as i64)
    }
}

/// A value as an integer: a number that is an integer within `i64`, or a
/// string that parses as one.
pub open spec fn int_of(j: Option<Json>) -> Option<i64> {
    match j {
        Some(Json::Number(t)) => parse_i64_of(t@),
        Some(Json::Str(s)) => parse_i64_of(s@),
        _ => None,
    }
}

proof fn lemma_digits_step(s: Seq<char>, i: int)
    requires
        0 <= i < s.len(),
    ensures
        digits_value(s.take(i + 1)) == digits_value(s.take(i)) * 10 + ((s[i] as nat) - (
        '0' as nat)) as nat,
{
    assert(s.take(i + 1).drop_last() =~= s.take(i));
}

proof fn lemma_digits_mono(s: Seq<char>, i: int, j: int)
    requires
        0 <= i <= j <= s.len(),
        all_digits(s),
    ensures
        digits_value(s.take(i)) <= digits_value(s.take(j)),
    decreases j - i,
{
    if i < j {
        lemma_digits_mono(s, i, j - 1);
        lemma_digits_step(s, j - 1);
    }
}

/// The value of the digits `v[lo..]`, or `None` when a character is not a
/// digit or the value passes `limit`.
fn digits_upto(v: &Vec<char>, lo: usize, limit: u64) -> (r: Option<u64>)
    requires
        lo <= v.len(),
        limit >= 9,
    ensures
        r matches Some(n) ==> all_digits(v@.skip(lo as int)) && n == digits_value(
            v@.skip(lo as int),
        ) && n <= limit,
        r is None ==> !all_digits(v@.skip(lo as int)) || digits_value(v@.skip(lo as int))
            > limit,
{
    let ghost s = v@.skip(lo as int);
    let mut n: u64 = 0;
    let mut i: usize = lo;
    while i < v.len()
        invariant
            lo <= i <= v.len(),
            limit >= 9,
            s == v@.skip(lo as int),
            all_digits(s.take(i - lo)),
            n == digits_value(s.take(i - lo)),
            n <= limit,
        decreases v.len() - i,
    {
        let c = v[i];
        assert(s[i - lo] == c);
        if c < '0' || c > '9' {
            return None;
        }
        let d = (c as u32 - '0' as u32) as u64;
        proof {
            lemma_digits_step(s, i - lo);
            assert(all_digits(s.take(i - lo + 1))) by {
                assert forall|k: int| 0 <= k < s.take(i - lo + 1).len() implies is_digit(
                    #[trigger] s.take(i - lo + 1)[k],
                ) by {
                    if k < i - lo {
                        assert(s.take(i - lo + 1)[k] == s.take(i - lo)[k]);
                    }
                }
            }
        }
        if n > (limit - d) / 10 {
            proof {
                assert(digits_value(s.take(i - lo + 1)) > limit) by (nonlinear_arith)
                    requires
                        digits_value(s.take(i - lo + 1)) == n * 10 + d,
                        n > (limit - d) / 10,
                        d <= 9,
                        d <= limit,
                ;
                if all_digits(s) {
                    lemma_digits_mono(s, i - lo + 1, s.len() as int);
                    assert(s.take(s.len() as int) =~= s);
                }
            }
            return None;
        }
        proof {
            assert(n * 10 + d <= limit) by (nonlinear_arith)
                requires
                    n <= (limit - d) / 10,
                    d <= 9,
            ;
        }
        n = n * 10 + d;
        i = i + 1;
    }
    assert(s.take(i - lo) =~= s);
    Some(n)
}

/// `s.parse::<i64>().ok()`.
pub fn parse_i64(s: &str) -> (r: Option<i64>)
    ensures
        r == parse_i64_of(s@),
{
    let v = chars_of(s);
    if v.len() == 0 {
        return None;
    }
    let neg = v[0] == '-';
    let lo: usize = if v[0] == '+' || v[0] == '-' {
        1
    } else {
        0
    };
    assert(lo == 1 ==> v@.skip(1) =~= v@.drop_first());
    assert(lo == 0 ==> v@.skip(0) =~= v@);
    if lo == v.len() {
        return None;
    }
    let limit: u64 = if neg {
        0x8000_0000_0000_0000
    } else {
        0x7FFF_FFFF_FFFF_FFFF
    };
    match digits_upto(&v, lo, limit) {
        None => None,
        Some(n) => {
            if neg {
                if n == 0x8000_0000_0000_0000 {
                    Some(i64::MIN)
                } else {
                    Some(-(n as i64))
                }
            } else {
                Some(n as i64)
            }
        },
    }
}

// ---------- lookups ----------

impl Json {
    /// `self[key]` when `self` is an object.
    pub fn get(&self, key: &str) -> (r: Option<&Json>)
        ensures
            match r {
                Some(x) => field_of(*self, key@) == Some(*x),
                None => field_of(*self, key@) is None,
            },
    {
        match self {
            Json::Object(entries) => find_member(entries, key),
            _ => None,
        }
    }

    /// `self[i]` when `self` is an array.
    pub fn at(&self, i: usize) -> (r: Option<&Json>)
        ensures
            match r {
                Some(x) => item_of(*self, i as int) == Some(*x),
                None => item_of(*self, i as int) is None,
            },
    {
        match self {
            Json::Array(items) => if i < items.len() {
                Some(&items[i])
            } else {
                None
            },
            _ => None,
        }
    }

    /// One step of a JSON pointer.
    pub fn step(&self, token: &str) -> (r: Option<&Json>)
        ensures
            match r {
                Some(x) => step_of(*self, token@) == Some(*x),
                None => step_of(*self, token@) is None,
            },
    {
        match self {
            Json::Object(entries) => find_member(entries, token),
            Json::Array(items) => match index_of_token(token) {
                Some(i) => if i < items.len() {
                    Some(&items[i])
                } else {
                    None
                },
                None => None,
            },
            _ => None,
        }
    }

    /// The text of a string value.
    pub fn as_text(&self) -> (r: Option<&String>)
        ensures
            match r {
                Some(x) => str_of(Some(*self)) == Some(x@),
                None => str_of(Some(*self)) is None,
            },
    {
        match self {
            Json::Str(s) => Some(s),
            _ => None,
        }
    }

    /// The elements of an array value.
    pub fn as_items(&self) -> (r: Option<&Vec<Json>>)
        ensures
            match r {
                Some(x) => *self == Json::Array(*x),
                None => !(*self is Array),
            },
    {
        match self {
            Json::Array(items) => Some(items),
            _ => None,
        }
    }

    /// The value as an integer (`as_i64`, or a string that parses as one).
    pub fn as_int(&self) -> (r: Option<i64>)
        ensures
            r == int_of(Some(*self)),
    {
        match self {
            Json::Number(t) => parse_i64(t.as_str()),
            Json::Str(s) => parse_i64(s.as_str()),
            _ => None,
        }
    }
}

fn find_member<'a>(entries: &'a Vec<(String, Json)>, key: &str) -> (r: Option<&'a Json>)
    ensures
        match r {
            Some(x) => member_from(entries@, key@, 0) == Some(*x),
            None => member_from(entries@, key@, 0) is None,
        },
{
    let mut i: usize = 0;
    while i < entries.len()
        invariant
            0 <= i <= entries.len(),
            member_from(entries@, key@, 0) == member_from(entries@, key@, i as int),
        decreases entries.len() - i,
    {
        if str_eq(entries[i].0.as_str(), key) {
            return Some(&entries[i].1);
        }
        i = i + 1;
    }
    None
}

/// The array index a pointer token names.
fn index_of_token(token: &str) -> (r: Option<usize>)
    ensures
        match r {
            Some(i) => token_index(token@) == Some(i as nat),
            None => token_index(token@) is None,
        },
{
    let v = chars_of(token);
    if v.len() == 0 || v[0] == '+' || (v[0] == '0' && v.len() != 1) {
        return None;
    }
    assert(v@.skip(0) =~= v@);
    match digits_upto(&v, 0, usize::MAX as u64) {
        Some(n) => Some(n as usize),
        None => None,
    }
}

} // verus!
