//! The textual format of the insights cache file and of the model's array
//! responses: a JSON subset read and written character by character.
//!
//! The readers accept what a standard JSON parser accepts for these
//! shapes: free whitespace, string escapes including surrogate pairs,
//! numbers, unknown object fields of any shape (skipped), `null` for an
//! absent field, and nothing after the top-level value. Duplicates of a
//! known field, a missing required field, or a value of the wrong shape
//! make the document rejected, as a typed JSON parse would. The writer
//! and the reader are proved inverse: see `lemma_cache_round_trip`.

use vstd::prelude::*;
use vstd::string::*;
use crate::fingerprint::{hex_digit, hex_digit_char};
use crate::insights::{InsightsView, RecommendedAction, TranscriptInsights};
use crate::insights::{action_view, empty_insights_view, insights_view};
use crate::textutil::{push_char, str_to_chars};

verus! {

/// The JSON whitespace characters.
pub open spec fn is_json_ws(c: char) -> bool {
    c == ' ' || c == '\t' || c == '\n' || c == '\r'
}

/// The first index at or after `i` holding something besides whitespace.
pub open spec fn sp_ws(s: Seq<char>, i: int) -> int
    decreases s.len() - i,
{
    if 0 <= i < s.len() && is_json_ws(s[i]) {
        sp_ws(s, i + 1)
    } else {
        i
    }
}

/// The value of a hex digit, or a negative number for any other character.
pub open spec fn hex_val(c: char) -> int {
    let n = c as u32;
    if 0x30 <= n && n <= 0x39 {
        n - 0x30
    } else if 0x61 <= n && n <= 0x66 {
        n - 0x57
    } else if 0x41 <= n && n <= 0x46 {
        n - 0x37
    } else {
        -1
    }
}

/// The value of the four hex digits at `i`, if they are there.
pub open spec fn sp_hex4(s: Seq<char>, i: int) -> Option<int> {
    if i + 4 <= s.len() && hex_val(s[i]) >= 0 && hex_val(s[i + 1]) >= 0 && hex_val(s[i + 2]) >= 0
        && hex_val(s[i + 3]) >= 0 {
        Some(hex_val(s[i]) * 4096 + hex_val(s[i + 1]) * 256 + hex_val(s[i + 2]) * 16 + hex_val(
            s[i + 3],
        ))
    } else {
        None
    }
}

/// Reads a string body starting after the opening quote, decoding escapes;
/// yields the content and the index after the closing quote.
pub open spec fn sp_string_body(s: Seq<char>, i: int, acc: Seq<char>) -> Option<(Seq<char>, int)>
    decreases s.len() - i,
{
    if !(0 <= i < s.len()) {
        None
    } else {
        let c = s[i];
        if c == '"' {
            Some((acc, i + 1))
        } else if c == '\\' {
            if i + 1 >= s.len() {
                None
            } else {
                let e = s[i + 1];
                if e == '"' {
                    sp_string_body(s, i + 2, acc.push('"'))
                } else if e == '\\' {
                    sp_string_body(s, i + 2, acc.push('\\'))
                } else if e == '/' {
                    sp_string_body(s, i + 2, acc.push('/'))
                } else if e == 'b' {
                    sp_string_body(s, i + 2, acc.push('\u{8}'))
                } else if e == 'f' {
                    sp_string_body(s, i + 2, acc.push('\u{c}'))
                } else if e == 'n' {
                    sp_string_body(s, i + 2, acc.push('\n'))
                } else if e == 'r' {
                    sp_string_body(s, i + 2, acc.push('\r'))
                } else if e == 't' {
                    sp_string_body(s, i + 2, acc.push('\t'))
                } else if e == 'u' {
                    match sp_hex4(s, i + 2) {
                        None => None,
                        Some(h) => if 0xD800 <= h && h < 0xDC00 {
                            if i + 8 <= s.len() && s[i + 6] == '\\' && s[i + 7] == 'u' {
                                match sp_hex4(s, i + 8) {
                                    None => None,
                                    Some(l) => if 0xDC00 <= l && l < 0xE000 {
                                        let code = 0x10000 + (h - 0xD800) * 0x400 + (l - 0xDC00);
                                        sp_string_body(s, i + 12, acc.push((code as u32) as char))
                                    } else {
                                        None
                                    },
                                }
                            } else {
                                None
                            }
                        } else if 0xDC00 <= h && h < 0xE000 {
                            None
                        } else {
                            sp_string_body(s, i + 6, acc.push((h as u32) as char))
                        },
                    }
                } else {
                    None
                }
            }
        } else if (c as u32) < 0x20 {
            None
        } else {
            sp_string_body(s, i + 1, acc.push(c))
        }
    }
}

/// The index after the run of decimal digits starting at `i`.
pub open spec fn sp_digits_end(s: Seq<char>, i: int) -> int
    decreases s.len() - i,
{
    if 0 <= i < s.len() && '0' <= s[i] && s[i] <= '9' {
        sp_digits_end(s, i + 1)
    } else {
        i
    }
}

/// The index after the JSON number starting at `i`, if one is there:
/// an optional minus, an integer part without leading zeros, an optional
/// fraction, an optional exponent.
pub open spec fn sp_number_end(s: Seq<char>, i: int) -> Option<int> {
    let j = if 0 <= i < s.len() && s[i] == '-' {
        i + 1
    } else {
        i
    };
    if !(0 <= j < s.len()) {
        None
    } else if s[j] == '0' {
        sp_number_tail(s, j + 1)
    } else if '1' <= s[j] && s[j] <= '9' {
        sp_number_tail(s, sp_digits_end(s, j + 1))
    } else {
        None
    }
}

/// The index after the optional fraction and exponent starting at `i`.
pub open spec fn sp_number_tail(s: Seq<char>, i: int) -> Option<int> {
    let f = if 0 <= i < s.len() && s[i] == '.' {
        if sp_digits_end(s, i + 1) > i + 1 {
            Some(sp_digits_end(s, i + 1))
        } else {
            None
        }
    } else {
        Some(i)
    };
    match f {
        None => None,
        Some(p) => if 0 <= p < s.len() && (s[p] == 'e' || s[p] == 'E') {
            let q = if p + 1 < s.len() && (s[p + 1] == '+' || s[p + 1] == '-') {
                p + 2
            } else {
                p + 1
            };
            if sp_digits_end(s, q) > q {
                Some(sp_digits_end(s, q))
            } else {
                None
            }
        } else {
            Some(p)
        },
    }
}

/// The index after the JSON value starting at `i`, if one is there. The
/// value's content is not kept: this is how unknown object fields are
/// passed over.
pub open spec fn sp_skip_value(s: Seq<char>, i: int) -> Option<int>
    decreases s.len() - i, 0int,
{
    if !(0 <= i < s.len()) {
        None
    } else {
        let c = s[i];
        if c == 'n' {
            if i + 4 <= s.len() && s[i + 1] == 'u' && s[i + 2] == 'l' && s[i + 3] == 'l' {
                Some(i + 4)
            } else {
                None
            }
        } else if c == 't' {
            if i + 4 <= s.len() && s[i + 1] == 'r' && s[i + 2] == 'u' && s[i + 3] == 'e' {
                Some(i + 4)
            } else {
                None
            }
        } else if c == 'f' {
            if i + 5 <= s.len() && s[i + 1] == 'a' && s[i + 2] == 'l' && s[i + 3] == 's' && s[i
                + 4] == 'e' {
                Some(i + 5)
            } else {
                None
            }
        } else if c == '"' {
            match sp_string_body(s, i + 1, Seq::empty()) {
                Some(p) => Some(p.1),
                None => None,
            }
        } else if c == '-' || ('0' <= c && c <= '9') {
            sp_number_end(s, i)
        } else if c == '[' {
            let j = sp_ws(s, i + 1);
            if j < s.len() && s[j] == ']' {
                Some(j + 1)
            } else if i < j <= s.len() {
                sp_skip_arr_items(s, j)
            } else {
                None
            }
        } else if c == '{' {
            let j = sp_ws(s, i + 1);
            if j < s.len() && s[j] == '}' {
                Some(j + 1)
            } else if i < j <= s.len() {
                sp_skip_obj_members(s, j)
            } else {
                None
            }
        } else {
            None
        }
    }
}

/// The index after the remaining array items starting at a value at `i`.
pub open spec fn sp_skip_arr_items(s: Seq<char>, i: int) -> Option<int>
    decreases s.len() - i, 1int,
{
    if !(0 <= i <= s.len()) {
        None
    } else {
        match sp_skip_value(s, i) {
            None => None,
            Some(e) => {
                let w = sp_ws(s, e);
                if w < s.len() && s[w] == ']' {
                    Some(w + 1)
                } else if w < s.len() && s[w] == ',' {
                    let n = sp_ws(s, w + 1);
                    if i < n <= s.len() {
                        sp_skip_arr_items(s, n)
                    } else {
                        None
                    }
                } else {
                    None
                }
            },
        }
    }
}

/// The index after the remaining object members starting at a key at `i`.
pub open spec fn sp_skip_obj_members(s: Seq<char>, i: int) -> Option<int>
    decreases s.len() - i, 1int,
{
    if !(0 <= i < s.len() && s[i] == '"') {
        None
    } else {
        match sp_string_body(s, i + 1, Seq::empty()) {
            None => None,
            Some(k) => {
                let c = sp_ws(s, k.1);
                if !(c < s.len() && s[c] == ':') {
                    None
                } else {
                    let v = sp_ws(s, c + 1);
                    if !(i < v <= s.len()) {
                        None
                    } else {
                        match sp_skip_value(s, v) {
                            None => None,
                            Some(e) => {
                                let w = sp_ws(s, e);
                                if w < s.len() && s[w] == '}' {
                                    Some(w + 1)
                                } else if w < s.len() && s[w] == ',' {
                                    let n = sp_ws(s, w + 1);
                                    if i < n <= s.len() {
                                        sp_skip_obj_members(s, n)
                                    } else {
                                        None
                                    }
                                } else {
                                    None
                                }
                            },
                        }
                    }
                }
            },
        }
    }
}

/// Reads the members of an action object starting at a key at `i`: the
/// `title` and `description` strings are required, must not repeat, and
/// unknown members are skipped; yields the pair and the index after the
/// closing brace.
pub open spec fn sp_action_members(
    s: Seq<char>,
    i: int,
    seen_title: bool,
    seen_desc: bool,
    title: Seq<char>,
    desc: Seq<char>,
) -> Option<((Seq<char>, Seq<char>), int)>
    decreases s.len() - i,
{
    if !(0 <= i < s.len() && s[i] == '"') {
        None
    } else {
        match sp_string_body(s, i + 1, Seq::empty()) {
            None => None,
            Some(k) => {
                let key = k.0;
                let c = sp_ws(s, k.1);
                if !(c < s.len() && s[c] == ':') {
                    None
                } else {
                    let v = sp_ws(s, c + 1);
                    if !(i < v <= s.len()) {
                        None
                    } else {
                        let stepped: Option<(bool, bool, Seq<char>, Seq<char>, int)> = if key
                            == "title"@ {
                            if seen_title || !(v < s.len() && s[v] == '"') {
                                None
                            } else {
                                match sp_string_body(s, v + 1, Seq::empty()) {
                                    None => None,
                                    Some(t) => Some((true, seen_desc, t.0, desc, t.1)),
                                }
                            }
                        } else if key == "description"@ {
                            if seen_desc || !(v < s.len() && s[v] == '"') {
                                None
                            } else {
                                match sp_string_body(s, v + 1, Seq::empty()) {
                                    None => None,
                                    Some(t) => Some((seen_title, true, title, t.0, t.1)),
                                }
                            }
                        } else {
                            match sp_skip_value(s, v) {
                                None => None,
                                Some(e) => Some((seen_title, seen_desc, title, desc, e)),
                            }
                        };
                        match stepped {
                            None => None,
                            Some(st) => {
                                let w = sp_ws(s, st.4);
                                if w < s.len() && s[w] == '}' {
                                    if st.0 && st.1 {
                                        Some(((st.2, st.3), w + 1))
                                    } else {
                                        None
                                    }
                                } else if w < s.len() && s[w] == ',' {
                                    let n = sp_ws(s, w + 1);
                                    if i < n <= s.len() {
                                        sp_action_members(s, n, st.0, st.1, st.2, st.3)
                                    } else {
                                        None
                                    }
                                } else {
                                    None
                                }
                            },
                        }
                    }
                }
            },
        }
    }
}

/// Reads the remaining items of an actions array starting at a value at
/// `i`: each must be an action object.
pub open spec fn sp_actions_items(s: Seq<char>, i: int, acc: Seq<(Seq<char>, Seq<char>)>) -> Option<
    (Seq<(Seq<char>, Seq<char>)>, int),
>
    decreases s.len() - i,
{
    if !(0 <= i < s.len() && s[i] == '{') {
        None
    } else {
        let j = sp_ws(s, i + 1);
        let parsed: Option<((Seq<char>, Seq<char>), int)> = if i < j <= s.len() {
            sp_action_members(s, j, false, false, Seq::empty(), Seq::empty())
        } else {
            None
        };
        match parsed {
            None => None,
            Some(p) => {
                let w = sp_ws(s, p.1);
                if w < s.len() && s[w] == ']' {
                    Some((acc.push(p.0), w + 1))
                } else if w < s.len() && s[w] == ',' {
                    let n = sp_ws(s, w + 1);
                    if i < n <= s.len() {
                        sp_actions_items(s, n, acc.push(p.0))
                    } else {
                        None
                    }
                } else {
                    None
                }
            },
        }
    }
}

/// Reads the remaining items of a topics array starting at a value at
/// `i`: each must be a string.
pub open spec fn sp_topics_items(s: Seq<char>, i: int, acc: Seq<Seq<char>>) -> Option<
    (Seq<Seq<char>>, int),
>
    decreases s.len() - i,
{
    if !(0 <= i < s.len() && s[i] == '"') {
        None
    } else {
        match sp_string_body(s, i + 1, Seq::empty()) {
            None => None,
            Some(t) => {
                let w = sp_ws(s, t.1);
                if w < s.len() && s[w] == ']' {
                    Some((acc.push(t.0), w + 1))
                } else if w < s.len() && s[w] == ',' {
                    let n = sp_ws(s, w + 1);
                    if i < n <= s.len() {
                        sp_topics_items(s, n, acc.push(t.0))
                    } else {
                        None
                    }
                } else {
                    None
                }
            },
        }
    }
}

/// Reads the members of the insights object starting at a key at `i`:
/// `summary` must be null or a string, `actions` null or an array of
/// action objects, `topics` null or an array of strings; a repeated known
/// member fails, unknown members are skipped.
pub open spec fn sp_insights_members(
    s: Seq<char>,
    i: int,
    seen_s: bool,
    seen_a: bool,
    seen_t: bool,
    acc: InsightsView,
) -> Option<(InsightsView, int)>
    decreases s.len() - i,
{
    if !(0 <= i < s.len() && s[i] == '"') {
        None
    } else {
        match sp_string_body(s, i + 1, Seq::empty()) {
            None => None,
            Some(k) => {
                let key = k.0;
                let c = sp_ws(s, k.1);
                if !(c < s.len() && s[c] == ':') {
                    None
                } else {
                    let v = sp_ws(s, c + 1);
                    if !(i < v <= s.len()) {
                        None
                    } else {
                        let stepped: Option<(bool, bool, bool, InsightsView, int)> = if key
                            == "summary"@ {
                            if seen_s {
                                None
                            } else if sp_is_null(s, v) {
                                Some((true, seen_a, seen_t, acc, v + 4))
                            } else if v < s.len() && s[v] == '"' {
                                match sp_string_body(s, v + 1, Seq::empty()) {
                                    None => None,
                                    Some(t) => Some(
                                        (
                                            true,
                                            seen_a,
                                            seen_t,
                                            InsightsView { summary: Some(t.0), ..acc },
                                            t.1,
                                        ),
                                    ),
                                }
                            } else {
                                None
                            }
                        } else if key == "actions"@ {
                            if seen_a {
                                None
                            } else if sp_is_null(s, v) {
                                Some((seen_s, true, seen_t, acc, v + 4))
                            } else if v < s.len() && s[v] == '[' {
                                let j = sp_ws(s, v + 1);
                                if j < s.len() && s[j] == ']' {
                                    Some(
                                        (
                                            seen_s,
                                            true,
                                            seen_t,
                                            InsightsView { actions: Some(Seq::empty()), ..acc },
                                            j + 1,
                                        ),
                                    )
                                } else if v < j <= s.len() {
                                    match sp_actions_items(s, j, Seq::empty()) {
                                        None => None,
                                        Some(p) => Some(
                                            (
                                                seen_s,
                                                true,
                                                seen_t,
                                                InsightsView { actions: Some(p.0), ..acc },
                                                p.1,
                                            ),
                                        ),
                                    }
                                } else {
                                    None
                                }
                            } else {
                                None
                            }
                        } else if key == "topics"@ {
                            if seen_t {
                                None
                            } else if sp_is_null(s, v) {
                                Some((seen_s, seen_a, true, acc, v + 4))
                            } else if v < s.len() && s[v] == '[' {
                                let j = sp_ws(s, v + 1);
                                if j < s.len() && s[j] == ']' {
                                    Some(
                                        (
                                            seen_s,
                                            seen_a,
                                            true,
                                            InsightsView { topics: Some(Seq::empty()), ..acc },
                                            j + 1,
                                        ),
                                    )
                                } else if v < j <= s.len() {
                                    match sp_topics_items(s, j, Seq::empty()) {
                                        None => None,
                                        Some(p) => Some(
                                            (
                                                seen_s,
                                                seen_a,
                                                true,
                                                InsightsView { topics: Some(p.0), ..acc },
                                                p.1,
                                            ),
                                        ),
                                    }
                                } else {
                                    None
                                }
                            } else {
                                None
                            }
                        } else {
                            match sp_skip_value(s, v) {
                                None => None,
                                Some(e) => Some((seen_s, seen_a, seen_t, acc, e)),
                            }
                        };
                        match stepped {
                            None => None,
                            Some(st) => {
                                let w = sp_ws(s, st.4);
                                if w < s.len() && s[w] == '}' {
                                    Some((st.3, w + 1))
                                } else if w < s.len() && s[w] == ',' {
                                    let n = sp_ws(s, w + 1);
                                    if i < n <= s.len() {
                                        sp_insights_members(s, n, st.0, st.1, st.2, st.3)
                                    } else {
                                        None
                                    }
                                } else {
                                    None
                                }
                            },
                        }
                    }
                }
            },
        }
    }
}

/// Whether the four characters of `null` stand at `i`.
pub open spec fn sp_is_null(s: Seq<char>, i: int) -> bool {
    i + 4 <= s.len() && s[i] == 'n' && s[i + 1] == 'u' && s[i + 2] == 'l' && s[i + 3] == 'l'
}

/// Reads a whole document as an insights record: a single object, with
/// nothing but whitespace around it.
pub open spec fn sp_insights_doc(s: Seq<char>) -> Option<InsightsView> {
    let i = sp_ws(s, 0);
    if !(0 <= i < s.len() && s[i] == '{') {
        None
    } else {
        let j = sp_ws(s, i + 1);
        let parsed: Option<(InsightsView, int)> = if j < s.len() && s[j] == '}' {
            Some((empty_insights_view(), j + 1))
        } else if i < j <= s.len() {
            sp_insights_members(s, j, false, false, false, empty_insights_view())
        } else {
            None
        };
        match parsed {
            None => None,
            Some(p) => if sp_ws(s, p.1) == s.len() {
                Some(p.0)
            } else {
                None
            },
        }
    }
}

/// Reads a whole document as an actions array, with nothing but
/// whitespace around it.
pub open spec fn sp_actions_doc(s: Seq<char>) -> Option<Seq<(Seq<char>, Seq<char>)>> {
    let i = sp_ws(s, 0);
    if !(0 <= i < s.len() && s[i] == '[') {
        None
    } else {
        let j = sp_ws(s, i + 1);
        let parsed: Option<(Seq<(Seq<char>, Seq<char>)>, int)> = if j < s.len() && s[j] == ']' {
            Some((Seq::empty(), j + 1))
        } else if i < j <= s.len() {
            sp_actions_items(s, j, Seq::empty())
        } else {
            None
        };
        match parsed {
            None => None,
            Some(p) => if sp_ws(s, p.1) == s.len() {
                Some(p.0)
            } else {
                None
            },
        }
    }
}

/// Relies on char::from_u32: a character comes back exactly for a Unicode
/// scalar value (not a surrogate, at most 0x10FFFF), and it is the
/// character with that code.
#[verifier::external_body]
fn char_from_u32(v: u32) -> (r: Option<char>)
    ensures
        r is Some <==> (v < 0xD800 || (0xE000 <= v && v <= 0x10FFFF)),
        r matches Some(c) ==> c as u32 == v,
{
    char::from_u32(v)
}

/// Decides whether a character is JSON whitespace.
fn json_ws_c(c: char) -> (r: bool)
    ensures
        r == is_json_ws(c),
{
    c == ' ' || c == '\t' || c == '\n' || c == '\r'
}

/// Skips whitespace from `i`.
fn ws_at(chars: &Vec<char>, i: usize) -> (r: usize)
    requires
        i <= chars@.len(),
    ensures
        r as int == sp_ws(chars@, i as int),
        i <= r <= chars@.len(),
    decreases chars@.len() - i,
{
    if i < chars.len() && json_ws_c(chars[i]) {
        ws_at(chars, i + 1)
    } else {
        i
    }
}

/// Computes a hex digit's value, negative for any other character.
fn hex_val_c(c: char) -> (r: i32)
    ensures
        r as int == hex_val(c),
{
    let n = c as u32;
    if 0x30 <= n && n <= 0x39 {
        (n - 0x30) as i32
    } else if 0x61 <= n && n <= 0x66 {
        (n - 0x57) as i32
    } else if 0x41 <= n && n <= 0x46 {
        (n - 0x37) as i32
    } else {
        -1
    }
}

/// Reads the four hex digits at `i`, if they are there.
fn hex4_at(chars: &Vec<char>, i: usize) -> (r: Option<u32>)
    requires
        i <= chars@.len(),
    ensures
        match r {
            Some(h) => sp_hex4(chars@, i as int) == Some(h as int) && h <= 0xFFFF,
            None => sp_hex4(chars@, i as int) is None,
        },
{
    if chars.len() - i >= 4 {
        let h0 = hex_val_c(chars[i]);
        let h1 = hex_val_c(chars[i + 1]);
        let h2 = hex_val_c(chars[i + 2]);
        let h3 = hex_val_c(chars[i + 3]);
        if h0 >= 0 && h1 >= 0 && h2 >= 0 && h3 >= 0 {
            Some(
                (h0 as u32) * 4096 + (h1 as u32) * 256 + (h2 as u32) * 16 + (h3 as u32),
            )
        } else {
            None
        }
    } else {
        None
    }
}

/// Reads a string body starting after the opening quote.
fn string_body_at(chars: &Vec<char>, i: usize, acc: String) -> (r: Option<(String, usize)>)
    requires
        i <= chars@.len(),
    ensures
        match r {
            Some(p) => sp_string_body(chars@, i as int, acc@) == Some((p.0@, p.1 as int)) && p.1
                <= chars@.len(),
            None => sp_string_body(chars@, i as int, acc@) is None,
        },
    decreases chars@.len() - i,
{
    if i >= chars.len() {
        return None;
    }
    let c = chars[i];
    if c == '"' {
        Some((acc, i + 1))
    } else if c == '\\' {
        if i + 1 >= chars.len() {
            return None;
        }
        let e = chars[i + 1];
        if e == '"' || e == '\\' || e == '/' {
            let mut acc = acc;
            push_char(&mut acc, e);
            string_body_at(chars, i + 2, acc)
        } else if e == 'b' {
            let mut acc = acc;
            push_char(&mut acc, '\u{8}');
            string_body_at(chars, i + 2, acc)
        } else if e == 'f' {
            let mut acc = acc;
            push_char(&mut acc, '\u{c}');
            string_body_at(chars, i + 2, acc)
        } else if e == 'n' {
            let mut acc = acc;
            push_char(&mut acc, '\n');
            string_body_at(chars, i + 2, acc)
        } else if e == 'r' {
            let mut acc = acc;
            push_char(&mut acc, '\r');
            string_body_at(chars, i + 2, acc)
        } else if e == 't' {
            let mut acc = acc;
            push_char(&mut acc, '\t');
            string_body_at(chars, i + 2, acc)
        } else if e == 'u' {
            match hex4_at(chars, i + 2) {
                None => None,
                Some(h) => {
                    if 0xD800 <= h && h < 0xDC00 {
                        if chars.len() - i >= 8 && chars[i + 6] == '\\' && chars[i + 7] == 'u' {
                            match hex4_at(chars, i + 8) {
                                None => None,
                                Some(l) => {
                                    if 0xDC00 <= l && l < 0xE000 {
                                        let code: u32 = 0x10000 + (h - 0xD800) * 0x400 + (l
                                            - 0xDC00);
                                        match char_from_u32(code) {
                                            Some(ch) => {
                                                proof {
                                                    vstd::utf8::char_u32_cast(ch, code);
                                                }
                                                let mut acc = acc;
                                                push_char(&mut acc, ch);
                                                string_body_at(chars, i + 12, acc)
                                            },
                                            None => {
                                                proof {
                                                    assert(false);
                                                }
                                                None
                                            },
                                        }
                                    } else {
                                        None
                                    }
                                },
                            }
                        } else {
                            None
                        }
                    } else if 0xDC00 <= h && h < 0xE000 {
                        None
                    } else {
                        match char_from_u32(h) {
                            Some(ch) => {
                                proof {
                                    vstd::utf8::char_u32_cast(ch, h);
                                }
                                let mut acc = acc;
                                push_char(&mut acc, ch);
                                string_body_at(chars, i + 6, acc)
                            },
                            None => {
                                proof {
                                    assert(false);
                                }
                                None
                            },
                        }
                    }
                },
            }
        } else {
            None
        }
    } else if (c as u32) < 0x20 {
        None
    } else {
        let mut acc = acc;
        push_char(&mut acc, c);
        string_body_at(chars, i + 1, acc)
    }
}

/// Finds the end of the digit run at `i`.
fn digits_end_at(chars: &Vec<char>, i: usize) -> (r: usize)
    requires
        i <= chars@.len(),
    ensures
        r as int == sp_digits_end(chars@, i as int),
        i <= r <= chars@.len(),
    decreases chars@.len() - i,
{
    if i < chars.len() && '0' <= chars[i] && chars[i] <= '9' {
        digits_end_at(chars, i + 1)
    } else {
        i
    }
}

/// Finds the end of the optional fraction and exponent at `i`.
fn number_tail_at(chars: &Vec<char>, i: usize) -> (r: Option<usize>)
    requires
        i <= chars@.len(),
    ensures
        match r {
            Some(e) => sp_number_tail(chars@, i as int) == Some(e as int) && e <= chars@.len(),
            None => sp_number_tail(chars@, i as int) is None,
        },
{
    let f: Option<usize> = if i < chars.len() && chars[i] == '.' {
        let d = digits_end_at(chars, i + 1);
        if d > i + 1 {
            Some(d)
        } else {
            None
        }
    } else {
        Some(i)
    };
    match f {
        None => None,
        Some(p) => {
            if p < chars.len() && (chars[p] == 'e' || chars[p] == 'E') {
                let q: usize = if p + 1 < chars.len() && (chars[p + 1] == '+' || chars[p + 1]
                    == '-') {
                    p + 2
                } else {
                    p + 1
                };
                if q <= chars.len() {
                    let d = digits_end_at(chars, q);
                    if d > q {
                        Some(d)
                    } else {
                        None
                    }
                } else {
                    None
                }
            } else {
                Some(p)
            }
        },
    }
}

/// Finds the end of the JSON number at `i`, if one is there.
fn number_end_at(chars: &Vec<char>, i: usize) -> (r: Option<usize>)
    requires
        i <= chars@.len(),
    ensures
        match r {
            Some(e) => sp_number_end(chars@, i as int) == Some(e as int) && e <= chars@.len(),
            None => sp_number_end(chars@, i as int) is None,
        },
{
    let j: usize = if i < chars.len() && chars[i] == '-' {
        i + 1
    } else {
        i
    };
    if j >= chars.len() {
        None
    } else if chars[j] == '0' {
        number_tail_at(chars, j + 1)
    } else if '1' <= chars[j] && chars[j] <= '9' {
        let d = digits_end_at(chars, j + 1);
        number_tail_at(chars, d)
    } else {
        None
    }
}

/// Finds the end of the JSON value at `i`, if one is there.
fn skip_value_at(chars: &Vec<char>, i: usize) -> (r: Option<usize>)
    requires
        i <= chars@.len(),
    ensures
        match r {
            Some(e) => sp_skip_value(chars@, i as int) == Some(e as int) && e <= chars@.len(),
            None => sp_skip_value(chars@, i as int) is None,
        },
    decreases chars@.len() - i, 0int,
{
    if i >= chars.len() {
        return None;
    }
    let c = chars[i];
    if c == 'n' {
        if chars.len() - i >= 4 && chars[i + 1] == 'u' && chars[i + 2] == 'l' && chars[i + 3]
            == 'l' {
            Some(i + 4)
        } else {
            None
        }
    } else if c == 't' {
        if chars.len() - i >= 4 && chars[i + 1] == 'r' && chars[i + 2] == 'u' && chars[i + 3]
            == 'e' {
            Some(i + 4)
        } else {
            None
        }
    } else if c == 'f' {
        if chars.len() - i >= 5 && chars[i + 1] == 'a' && chars[i + 2] == 'l' && chars[i + 3]
            == 's' && chars[i + 4] == 'e' {
            Some(i + 5)
        } else {
            None
        }
    } else if c == '"' {
        match string_body_at(chars, i + 1, String::new()) {
            Some(p) => Some(p.1),
            None => None,
        }
    } else if c == '-' || ('0' <= c && c <= '9') {
        number_end_at(chars, i)
    } else if c == '[' {
        let j = ws_at(chars, i + 1);
        if j < chars.len() && chars[j] == ']' {
            Some(j + 1)
        } else {
            skip_arr_items_at(chars, j)
        }
    } else if c == '{' {
        let j = ws_at(chars, i + 1);
        if j < chars.len() && chars[j] == '}' {
            Some(j + 1)
        } else {
            skip_obj_members_at(chars, j)
        }
    } else {
        None
    }
}

/// Finds the end of the remaining array items starting at a value at `i`.
fn skip_arr_items_at(chars: &Vec<char>, i: usize) -> (r: Option<usize>)
    requires
        i <= chars@.len(),
    ensures
        match r {
            Some(e) => sp_skip_arr_items(chars@, i as int) == Some(e as int) && e
                <= chars@.len(),
            None => sp_skip_arr_items(chars@, i as int) is None,
        },
    decreases chars@.len() - i, 1int,
{
    match skip_value_at(chars, i) {
        None => None,
        Some(e) => {
            let w = ws_at(chars, e);
            if w < chars.len() && chars[w] == ']' {
                Some(w + 1)
            } else if w < chars.len() && chars[w] == ',' {
                let n = ws_at(chars, w + 1);
                if n > i {
                    skip_arr_items_at(chars, n)
                } else {
                    None
                }
            } else {
                None
            }
        },
    }
}

/// Finds the end of the remaining object members starting at a key at `i`.
fn skip_obj_members_at(chars: &Vec<char>, i: usize) -> (r: Option<usize>)
    requires
        i <= chars@.len(),
    ensures
        match r {
            Some(e) => sp_skip_obj_members(chars@, i as int) == Some(e as int) && e
                <= chars@.len(),
            None => sp_skip_obj_members(chars@, i as int) is None,
        },
    decreases chars@.len() - i, 1int,
{
    if !(i < chars.len() && chars[i] == '"') {
        return None;
    }
    match string_body_at(chars, i + 1, String::new()) {
        None => None,
        Some(k) => {
            let c = ws_at(chars, k.1);
            if !(c < chars.len() && chars[c] == ':') {
                return None;
            }
            let v = ws_at(chars, c + 1);
            if !(v > i) {
                return None;
            }
            match skip_value_at(chars, v) {
                None => None,
                Some(e) => {
                    let w = ws_at(chars, e);
                    if w < chars.len() && chars[w] == '}' {
                        Some(w + 1)
                    } else if w < chars.len() && chars[w] == ',' {
                        let n = ws_at(chars, w + 1);
                        if n > i {
                            skip_obj_members_at(chars, n)
                        } else {
                            None
                        }
                    } else {
                        None
                    }
                },
            }
        },
    }
}

/// Reads a whole document as a topics array, with nothing but whitespace
/// around it.
pub open spec fn sp_topics_doc(s: Seq<char>) -> Option<Seq<Seq<char>>> {
    let i = sp_ws(s, 0);
    if !(0 <= i < s.len() && s[i] == '[') {
        None
    } else {
        let j = sp_ws(s, i + 1);
        let parsed: Option<(Seq<Seq<char>>, int)> = if j < s.len() && s[j] == ']' {
            Some((Seq::empty(), j + 1))
        } else if i < j <= s.len() {
            sp_topics_items(s, j, Seq::empty())
        } else {
            None
        };
        match parsed {
            None => None,
            Some(p) => if sp_ws(s, p.1) == s.len() {
                Some(p.0)
            } else {
                None
            },
        }
    }
}


/// Tests whether `null` stands at `i`.
fn is_null_at(chars: &Vec<char>, i: usize) -> (r: bool)
    requires
        i <= chars@.len(),
    ensures
        r == sp_is_null(chars@, i as int),
{
    chars.len() - i >= 4 && chars[i] == 'n' && chars[i + 1] == 'u' && chars[i + 2] == 'l'
        && chars[i + 3] == 'l'
}

/// Reads the members of an action object starting at a key at `i`.
fn action_members_at(
    chars: &Vec<char>,
    i: usize,
    seen_title: bool,
    seen_desc: bool,
    title: String,
    desc: String,
) -> (r: Option<((String, String), usize)>)
    requires
        i <= chars@.len(),
    ensures
        match r {
            Some(p) => sp_action_members(chars@, i as int, seen_title, seen_desc, title@, desc@)
                == Some((((p.0).0@, (p.0).1@), p.1 as int)) && p.1 <= chars@.len(),
            None => sp_action_members(chars@, i as int, seen_title, seen_desc, title@, desc@)
                is None,
        },
    decreases chars@.len() - i,
{
    if !(i < chars.len() && chars[i] == '"') {
        return None;
    }
    match string_body_at(chars, i + 1, String::new()) {
        None => None,
        Some(k) => {
            let key = k.0;
            let c = ws_at(chars, k.1);
            if !(c < chars.len() && chars[c] == ':') {
                return None;
            }
            let v = ws_at(chars, c + 1);
            if !(v > i) {
                return None;
            }
            let stepped: Option<(bool, bool, String, String, usize)> = if key == String::from_str(
                "title",
            ) {
                if seen_title || !(v < chars.len() && chars[v] == '"') {
                    None
                } else {
                    match string_body_at(chars, v + 1, String::new()) {
                        None => None,
                        Some(t) => Some((true, seen_desc, t.0, desc, t.1)),
                    }
                }
            } else if key == String::from_str("description") {
                if seen_desc || !(v < chars.len() && chars[v] == '"') {
                    None
                } else {
                    match string_body_at(chars, v + 1, String::new()) {
                        None => None,
                        Some(t) => Some((seen_title, true, title, t.0, t.1)),
                    }
                }
            } else {
                match skip_value_at(chars, v) {
                    None => None,
                    Some(e) => Some((seen_title, seen_desc, title, desc, e)),
                }
            };
            match stepped {
                None => None,
                Some(st) => {
                    let w = ws_at(chars, st.4);
                    if w < chars.len() && chars[w] == '}' {
                        if st.0 && st.1 {
                            Some(((st.2, st.3), w + 1))
                        } else {
                            None
                        }
                    } else if w < chars.len() && chars[w] == ',' {
                        let n = ws_at(chars, w + 1);
                        if n > i {
                            action_members_at(chars, n, st.0, st.1, st.2, st.3)
                        } else {
                            None
                        }
                    } else {
                        None
                    }
                },
            }
        },
    }
}

/// Reads the remaining items of an actions array starting at a value at
/// `i`.
fn actions_items_at(chars: &Vec<char>, i: usize, acc: Vec<RecommendedAction>) -> (r: Option<
    (Vec<RecommendedAction>, usize),
>)
    requires
        i <= chars@.len(),
    ensures
        match r {
            Some(p) => sp_actions_items(
                chars@,
                i as int,
                acc@.map_values(|a: RecommendedAction| action_view(a)),
            ) == Some((p.0@.map_values(|a: RecommendedAction| action_view(a)), p.1 as int)) && p.1
                <= chars@.len(),
            None => sp_actions_items(
                chars@,
                i as int,
                acc@.map_values(|a: RecommendedAction| action_view(a)),
            ) is None,
        },
    decreases chars@.len() - i,
{
    if !(i < chars.len() && chars[i] == '{') {
        return None;
    }
    let j = ws_at(chars, i + 1);
    match action_members_at(chars, j, false, false, String::new(), String::new()) {
        None => None,
        Some(p) => {
            let w = ws_at(chars, p.1);
            let action = RecommendedAction { title: (p.0).0, description: (p.0).1 };
            let mut acc = acc;
            let ghost old_accv = acc@.map_values(|a: RecommendedAction| action_view(a));
            acc.push(action);
            proof {
                assert(acc@.map_values(|a: RecommendedAction| action_view(a)) =~= old_accv.push(
                    action_view(action),
                ));
            }
            if w < chars.len() && chars[w] == ']' {
                Some((acc, w + 1))
            } else if w < chars.len() && chars[w] == ',' {
                let n = ws_at(chars, w + 1);
                if n > i {
                    actions_items_at(chars, n, acc)
                } else {
                    None
                }
            } else {
                None
            }
        },
    }
}

/// Reads the remaining items of a topics array starting at a value at `i`.
fn topics_items_at(chars: &Vec<char>, i: usize, acc: Vec<String>) -> (r: Option<
    (Vec<String>, usize),
>)
    requires
        i <= chars@.len(),
    ensures
        match r {
            Some(p) => sp_topics_items(chars@, i as int, acc@.map_values(|t: String| t@)) == Some(
                (p.0@.map_values(|t: String| t@), p.1 as int),
            ) && p.1 <= chars@.len(),
            None => sp_topics_items(chars@, i as int, acc@.map_values(|t: String| t@)) is None,
        },
    decreases chars@.len() - i,
{
    if !(i < chars.len() && chars[i] == '"') {
        return None;
    }
    match string_body_at(chars, i + 1, String::new()) {
        None => None,
        Some(t) => {
            let w = ws_at(chars, t.1);
            let mut acc = acc;
            let ghost old_accv = acc@.map_values(|q: String| q@);
            let ghost tv = t.0@;
            acc.push(t.0);
            proof {
                assert(acc@.map_values(|q: String| q@) =~= old_accv.push(tv));
            }
            if w < chars.len() && chars[w] == ']' {
                Some((acc, w + 1))
            } else if w < chars.len() && chars[w] == ',' {
                let n = ws_at(chars, w + 1);
                if n > i {
                    topics_items_at(chars, n, acc)
                } else {
                    None
                }
            } else {
                None
            }
        },
    }
}

/// Reads the members of the insights object starting at a key at `i`.
fn insights_members_at(
    chars: &Vec<char>,
    i: usize,
    seen_s: bool,
    seen_a: bool,
    seen_t: bool,
    acc: TranscriptInsights,
) -> (r: Option<(TranscriptInsights, usize)>)
    requires
        i <= chars@.len(),
    ensures
        match r {
            Some(p) => sp_insights_members(
                chars@,
                i as int,
                seen_s,
                seen_a,
                seen_t,
                insights_view(acc),
            ) == Some((insights_view(p.0), p.1 as int)) && p.1 <= chars@.len(),
            None => sp_insights_members(
                chars@,
                i as int,
                seen_s,
                seen_a,
                seen_t,
                insights_view(acc),
            ) is None,
        },
    decreases chars@.len() - i,
{
    if !(i < chars.len() && chars[i] == '"') {
        return None;
    }
    match string_body_at(chars, i + 1, String::new()) {
        None => None,
        Some(k) => {
            let key = k.0;
            let c = ws_at(chars, k.1);
            if !(c < chars.len() && chars[c] == ':') {
                return None;
            }
            let v = ws_at(chars, c + 1);
            if !(v > i) {
                return None;
            }
            let stepped: Option<(bool, bool, bool, TranscriptInsights, usize)> = if key
                == String::from_str("summary") {
                if seen_s {
                    None
                } else if is_null_at(chars, v) {
                    Some((true, seen_a, seen_t, acc, v + 4))
                } else if v < chars.len() && chars[v] == '"' {
                    match string_body_at(chars, v + 1, String::new()) {
                        None => None,
                        Some(t) => {
                            let updated = TranscriptInsights { summary: Some(t.0), ..acc };
                            Some((true, seen_a, seen_t, updated, t.1))
                        },
                    }
                } else {
                    None
                }
            } else if key == String::from_str("actions") {
                if seen_a {
                    None
                } else if is_null_at(chars, v) {
                    Some((seen_s, true, seen_t, acc, v + 4))
                } else if v < chars.len() && chars[v] == '[' {
                    let j = ws_at(chars, v + 1);
                    if j < chars.len() && chars[j] == ']' {
                        let updated = TranscriptInsights { actions: Some(Vec::new()), ..acc };
                        proof {
                            assert(Seq::<RecommendedAction>::empty().map_values(
                                |a: RecommendedAction| action_view(a),
                            ) =~= Seq::<(Seq<char>, Seq<char>)>::empty());
                        }
                        Some((seen_s, true, seen_t, updated, j + 1))
                    } else {
                        proof {
                            assert(Seq::<RecommendedAction>::empty().map_values(
                                |a: RecommendedAction| action_view(a),
                            ) =~= Seq::<(Seq<char>, Seq<char>)>::empty());
                        }
                        match actions_items_at(chars, j, Vec::new()) {
                            None => None,
                            Some(p) => {
                                let updated = TranscriptInsights { actions: Some(p.0), ..acc };
                                Some((seen_s, true, seen_t, updated, p.1))
                            },
                        }
                    }
                } else {
                    None
                }
            } else if key == String::from_str("topics") {
                if seen_t {
                    None
                } else if is_null_at(chars, v) {
                    Some((seen_s, seen_a, true, acc, v + 4))
                } else if v < chars.len() && chars[v] == '[' {
                    let j = ws_at(chars, v + 1);
                    if j < chars.len() && chars[j] == ']' {
                        let updated = TranscriptInsights { topics: Some(Vec::new()), ..acc };
                        proof {
                            assert(Seq::<String>::empty().map_values(|t: String| t@) =~= Seq::<
                                Seq<char>,
                            >::empty());
                        }
                        Some((seen_s, seen_a, true, updated, j + 1))
                    } else {
                        proof {
                            assert(Seq::<String>::empty().map_values(|t: String| t@) =~= Seq::<
                                Seq<char>,
                            >::empty());
                        }
                        match topics_items_at(chars, j, Vec::new()) {
                            None => None,
                            Some(p) => {
                                let updated = TranscriptInsights { topics: Some(p.0), ..acc };
                                Some((seen_s, seen_a, true, updated, p.1))
                            },
                        }
                    }
                } else {
                    None
                }
            } else {
                match skip_value_at(chars, v) {
                    None => None,
                    Some(e) => Some((seen_s, seen_a, seen_t, acc, e)),
                }
            };
            match stepped {
                None => None,
                Some(st) => {
                    let w = ws_at(chars, st.4);
                    if w < chars.len() && chars[w] == '}' {
                        Some((st.3, w + 1))
                    } else if w < chars.len() && chars[w] == ',' {
                        let n = ws_at(chars, w + 1);
                        if n > i {
                            insights_members_at(chars, n, st.0, st.1, st.2, st.3)
                        } else {
                            None
                        }
                    } else {
                        None
                    }
                },
            }
        },
    }
}

/// Reads a whole document as an insights record.
pub fn parse_insights_doc(s: &str) -> (r: Option<TranscriptInsights>)
    ensures
        match r {
            Some(rec) => sp_insights_doc(s@) == Some(insights_view(rec)),
            None => sp_insights_doc(s@) is None,
        },
{
    let chars = str_to_chars(s);
    let i = ws_at(&chars, 0);
    if !(i < chars.len() && chars[i] == '{') {
        return None;
    }
    let j = ws_at(&chars, i + 1);
    let empty = TranscriptInsights { summary: None, actions: None, topics: None };
    proof {
        assert(insights_view(empty) == empty_insights_view());
    }
    let parsed: Option<(TranscriptInsights, usize)> = if j < chars.len() && chars[j] == '}' {
        Some((empty, j + 1))
    } else {
        insights_members_at(&chars, j, false, false, false, empty)
    };
    match parsed {
        None => None,
        Some(p) => {
            let t = ws_at(&chars, p.1);
            if t == chars.len() {
                Some(p.0)
            } else {
                None
            }
        },
    }
}

/// Reads a whole document as an actions array.
pub fn parse_actions_doc(s: &str) -> (r: Option<Vec<RecommendedAction>>)
    ensures
        match r {
            Some(v) => sp_actions_doc(s@) == Some(
                v@.map_values(|a: RecommendedAction| action_view(a)),
            ),
            None => sp_actions_doc(s@) is None,
        },
{
    let chars = str_to_chars(s);
    let i = ws_at(&chars, 0);
    if !(i < chars.len() && chars[i] == '[') {
        return None;
    }
    let j = ws_at(&chars, i + 1);
    proof {
        assert(Seq::<RecommendedAction>::empty().map_values(
            |a: RecommendedAction| action_view(a),
        ) =~= Seq::<(Seq<char>, Seq<char>)>::empty());
    }
    let parsed: Option<(Vec<RecommendedAction>, usize)> = if j < chars.len() && chars[j] == ']' {
        Some((Vec::new(), j + 1))
    } else {
        actions_items_at(&chars, j, Vec::new())
    };
    match parsed {
        None => None,
        Some(p) => {
            let t = ws_at(&chars, p.1);
            if t == chars.len() {
                Some(p.0)
            } else {
                None
            }
        },
    }
}

/// Reads a whole document as a topics array.
pub fn parse_topics_doc(s: &str) -> (r: Option<Vec<String>>)
    ensures
        match r {
            Some(v) => sp_topics_doc(s@) == Some(v@.map_values(|t: String| t@)),
            None => sp_topics_doc(s@) is None,
        },
{
    let chars = str_to_chars(s);
    let i = ws_at(&chars, 0);
    if !(i < chars.len() && chars[i] == '[') {
        return None;
    }
    let j = ws_at(&chars, i + 1);
    proof {
        assert(Seq::<String>::empty().map_values(|t: String| t@) =~= Seq::<Seq<char>>::empty());
    }
    let parsed: Option<(Vec<String>, usize)> = if j < chars.len() && chars[j] == ']' {
        Some((Vec::new(), j + 1))
    } else {
        topics_items_at(&chars, j, Vec::new())
    };
    match parsed {
        None => None,
        Some(p) => {
            let t = ws_at(&chars, p.1);
            if t == chars.len() {
                Some(p.0)
            } else {
                None
            }
        },
    }
}

/// The escape of one character inside a JSON string: quote and backslash
/// get a backslash, the short control escapes are used where they exist,
/// any other control character becomes a `u` escape, and everything else
/// stands as itself.
pub open spec fn esc_char(c: char) -> Seq<char> {
    if c == '"' {
        seq!['\\', '"']
    } else if c == '\\' {
        seq!['\\', '\\']
    } else if c == '\u{8}' {
        seq!['\\', 'b']
    } else if c == '\u{c}' {
        seq!['\\', 'f']
    } else if c == '\n' {
        seq!['\\', 'n']
    } else if c == '\r' {
        seq!['\\', 'r']
    } else if c == '\t' {
        seq!['\\', 't']
    } else if (c as u32) < 0x20 {
        seq![
            '\\',
            'u',
            '0',
            '0',
            hex_digit(((c as u32) / 16) as u8),
            hex_digit(((c as u32) % 16) as u8),
        ]
    } else {
        seq![c]
    }
}

/// The escaped form of a whole string.
pub open spec fn json_escape(s: Seq<char>) -> Seq<char>
    decreases s.len(),
{
    if s.len() == 0 {
        Seq::empty()
    } else {
        json_escape(s.drop_last()) + esc_char(s.last())
    }
}

/// A string as a JSON string literal.
pub open spec fn quoted(s: Seq<char>) -> Seq<char> {
    seq!['"'] + json_escape(s) + seq!['"']
}

/// One action as a JSON object.
pub open spec fn encode_action_spec(a: (Seq<char>, Seq<char>)) -> Seq<char> {
    "{\"title\":"@ + quoted(a.0) + ",\"description\":"@ + quoted(a.1) + seq!['}']
}

/// The actions as the inside of a JSON array.
pub open spec fn encode_actions_items(l: Seq<(Seq<char>, Seq<char>)>) -> Seq<char>
    decreases l.len(),
{
    if l.len() == 0 {
        Seq::empty()
    } else if l.len() == 1 {
        encode_action_spec(l[0])
    } else {
        encode_actions_items(l.drop_last()) + seq![','] + encode_action_spec(l.last())
    }
}

/// The topics as the inside of a JSON array.
pub open spec fn encode_topics_items(l: Seq<Seq<char>>) -> Seq<char>
    decreases l.len(),
{
    if l.len() == 0 {
        Seq::empty()
    } else if l.len() == 1 {
        quoted(l[0])
    } else {
        encode_topics_items(l.drop_last()) + seq![','] + quoted(l.last())
    }
}

/// The written form of the summary field: the quoted text, or `null`.
pub open spec fn enc_summary_value(s: Option<Seq<char>>) -> Seq<char> {
    match s {
        Some(x) => quoted(x),
        None => "null"@,
    }
}

/// The written form of the actions field: a JSON array, or `null`.
pub open spec fn enc_actions_value(l: Option<Seq<(Seq<char>, Seq<char>)>>) -> Seq<char> {
    match l {
        Some(x) => seq!['['] + encode_actions_items(x) + seq![']'],
        None => "null"@,
    }
}

/// The written form of the topics field: a JSON array, or `null`.
pub open spec fn enc_topics_value(l: Option<Seq<Seq<char>>>) -> Seq<char> {
    match l {
        Some(x) => seq!['['] + encode_topics_items(x) + seq![']'],
        None => "null"@,
    }
}

/// The insights record as the JSON document the cache file holds: the
/// three fields in a fixed order, an absent field written as `null`.
pub open spec fn encode_insights_spec(v: InsightsView) -> Seq<char> {
    "{\"summary\":"@ + enc_summary_value(v.summary) + ",\"actions\":"@ + enc_actions_value(
        v.actions,
    ) + ",\"topics\":"@ + enc_topics_value(v.topics) + seq!['}']
}

/// Appends the escaped form of a string.
fn escape_append(out: &mut String, s: &str)
    ensures
        final(out)@ == old(out)@ + json_escape(s@),
{
    let chars = str_to_chars(s);
    let n = chars.len();
    let mut i: usize = 0;
    while i < n
        invariant
            i <= n,
            n == chars@.len(),
            chars@ == s@,
            out@ == old(out)@ + json_escape(s@.take(i as int)),
        decreases n - i,
    {
        let c = chars[i];
        if c == '"' {
            push_char(out, '\\');
            push_char(out, '"');
        } else if c == '\\' {
            push_char(out, '\\');
            push_char(out, '\\');
        } else if c == '\u{8}' {
            push_char(out, '\\');
            push_char(out, 'b');
        } else if c == '\u{c}' {
            push_char(out, '\\');
            push_char(out, 'f');
        } else if c == '\n' {
            push_char(out, '\\');
            push_char(out, 'n');
        } else if c == '\r' {
            push_char(out, '\\');
            push_char(out, 'r');
        } else if c == '\t' {
            push_char(out, '\\');
            push_char(out, 't');
        } else if (c as u32) < 0x20 {
            push_char(out, '\\');
            push_char(out, 'u');
            push_char(out, '0');
            push_char(out, '0');
            push_char(out, hex_digit_char(((c as u32) / 16) as u8));
            push_char(out, hex_digit_char(((c as u32) % 16) as u8));
        } else {
            push_char(out, c);
        }
        i = i + 1;
        proof {
            assert(s@.take(i as int).drop_last() =~= s@.take(i as int - 1));
            assert(out@ =~= old(out)@ + json_escape(s@.take(i as int)));
        }
    }
    proof {
        assert(s@.take(n as int) =~= s@);
    }
}

/// Appends a string as a JSON string literal.
fn append_quoted(out: &mut String, s: &str)
    ensures
        final(out)@ == old(out)@ + quoted(s@),
{
    push_char(out, '"');
    escape_append(out, s);
    push_char(out, '"');
    proof {
        assert(out@ =~= old(out)@ + quoted(s@));
    }
}

/// Writes the insights record as the JSON document the cache file holds.
#[verifier::rlimit(80)]
pub fn encode_insights(r: &TranscriptInsights) -> (out: String)
    ensures
        out@ == encode_insights_spec(insights_view(*r)),
{
    let ghost v = insights_view(*r);
    let mut out = String::from_str("{\"summary\":");
    match &r.summary {
        Some(s) => {
            append_quoted(&mut out, s.as_str());
        },
        None => {
            out.append("null");
        },
    }
    out.append(",\"actions\":");
    match &r.actions {
        Some(list) => {
            push_char(&mut out, '[');
            let ghost lv = list@.map_values(|a: RecommendedAction| action_view(a));
            let ghost base = out@;
            let mut i: usize = 0;
            while i < list.len()
                invariant
                    i <= list@.len(),
                    lv == list@.map_values(|a: RecommendedAction| action_view(a)),
                    lv.len() == list@.len(),
                    forall|q: int| 0 <= q < list@.len() ==> lv[q] == action_view(list@[q]),
                    out@ == base + encode_actions_items(lv.take(i as int)),
                decreases list@.len() - i,
            {
                if i > 0 {
                    push_char(&mut out, ',');
                }
                out.append("{\"title\":");
                append_quoted(&mut out, list[i].title.as_str());
                out.append(",\"description\":");
                append_quoted(&mut out, list[i].description.as_str());
                push_char(&mut out, '}');
                i = i + 1;
                proof {
                    assert(lv.take(i as int).drop_last() =~= lv.take(i as int - 1));
                    assert(lv.take(i as int).last() == action_view(list@[i as int - 1]));
                    assert(out@ =~= base + encode_actions_items(lv.take(i as int)));
                }
            }
            push_char(&mut out, ']');
            proof {
                assert(lv.take(lv.len() as int) =~= lv);
            }
        },
        None => {
            out.append("null");
        },
    }
    out.append(",\"topics\":");
    match &r.topics {
        Some(list) => {
            push_char(&mut out, '[');
            let ghost lv = list@.map_values(|t: String| t@);
            let ghost base = out@;
            let mut i: usize = 0;
            while i < list.len()
                invariant
                    i <= list@.len(),
                    lv == list@.map_values(|t: String| t@),
                    lv.len() == list@.len(),
                    forall|q: int| 0 <= q < list@.len() ==> lv[q] == list@[q]@,
                    out@ == base + encode_topics_items(lv.take(i as int)),
                decreases list@.len() - i,
            {
                if i > 0 {
                    push_char(&mut out, ',');
                }
                append_quoted(&mut out, list[i].as_str());
                i = i + 1;
                proof {
                    assert(lv.take(i as int).drop_last() =~= lv.take(i as int - 1));
                    assert(lv.take(i as int).last() == list@[i as int - 1]@);
                    assert(out@ =~= base + encode_topics_items(lv.take(i as int)));
                }
            }
            push_char(&mut out, ']');
            proof {
                assert(lv.take(lv.len() as int) =~= lv);
            }
        },
        None => {
            out.append("null");
        },
    }
    push_char(&mut out, '}');
    proof {
        assert(out@ =~= encode_insights_spec(v));
    }
    out
}


proof fn lemma_json_escape_first(s: Seq<char>)
    requires
        s.len() > 0,
    ensures
        json_escape(s) == esc_char(s[0]) + json_escape(s.drop_first()),
    decreases s.len(),
{
    if s.len() == 1 {
        assert(s.drop_last() =~= Seq::<char>::empty());
        assert(s.drop_first() =~= Seq::<char>::empty());
        assert(json_escape(s) =~= esc_char(s[0]) + json_escape(s.drop_first()));
    } else {
        let t = s.drop_last();
        lemma_json_escape_first(t);
        assert(t.drop_first() =~= s.drop_first().drop_last());
        assert(s.drop_first().last() == s.last());
        assert(json_escape(s) == json_escape(t) + esc_char(s.last()));
        assert(json_escape(s.drop_first()) == json_escape(s.drop_first().drop_last()) + esc_char(
            s.drop_first().last(),
        ));
        assert(json_escape(s) =~= esc_char(s[0]) + json_escape(s.drop_first()));
    }
}

/// Whether a character stands for itself inside a JSON string literal.
spec fn is_plain_char(c: char) -> bool {
    c != '"' && c != '\\' && (c as u32) >= 0x20
}

proof fn lemma_escape_plain(s: Seq<char>)
    requires
        forall|j: int| 0 <= j < s.len() ==> is_plain_char(s[j]),
    ensures
        json_escape(s) == s,
    decreases s.len(),
{
    if s.len() == 0 {
        assert(json_escape(s) =~= s);
    } else {
        let t = s.drop_last();
        lemma_escape_plain(t);
        assert(is_plain_char(s.last()));
        assert(esc_char(s.last()) =~= seq![s.last()]);
        assert(json_escape(s) =~= s);
    }
}

proof fn lemma_hex_digit_val(x: u8)
    requires
        x < 16,
    ensures
        hex_val(hex_digit(x)) == x,
{
}


proof fn lemma_string_body_round(w: Seq<char>, i: int, s: Seq<char>, acc: Seq<char>)
    requires
        0 <= i,
        i + json_escape(s).len() + 1 <= w.len(),
        w.subrange(i, i + json_escape(s).len() + 1) == json_escape(s) + seq!['"'],
    ensures
        sp_string_body(w, i, acc) == Some((acc + s, i + json_escape(s).len() + 1)),
    decreases s.len(),
{
    let esc = json_escape(s);
    assert forall|k: int| 0 <= k < esc.len() implies w[i + k] == esc[k] by {
        assert(w.subrange(i, i + esc.len() + 1)[k] == w[i + k]);
        assert((esc + seq!['"'])[k] == esc[k]);
    }
    assert(w.subrange(i, i + esc.len() + 1)[esc.len() as int] == w[i + esc.len()]);
    assert(w[i + esc.len()] == '"');
    if s.len() == 0 {
        assert(esc =~= Seq::<char>::empty());
        assert(w[i] == '"');
        assert(acc + s =~= acc);
    } else {
        let c = s[0];
        lemma_json_escape_first(s);
        let e0 = esc_char(c);
        let rest = json_escape(s.drop_first());
        assert(esc == e0 + rest);
        assert(forall|k: int| 0 <= k < e0.len() ==> esc[k] == e0[k]);
        let i2 = i + e0.len();
        assert(w.subrange(i2, i2 + rest.len() + 1) =~= rest + seq!['"']) by {
            assert forall|k: int| 0 <= k < rest.len() + 1 implies w.subrange(
                i2,
                i2 + rest.len() + 1,
            )[k] == (rest + seq!['"'])[k] by {
                assert(w.subrange(i2, i2 + rest.len() + 1)[k] == w[i2 + k]);
                if k < rest.len() {
                    assert(esc[e0.len() + k] == rest[k]);
                    assert(w[i + (e0.len() + k)] == esc[e0.len() + k]);
                } else {
                    assert(i2 + k == i + esc.len());
                }
            }
        }
        assert(acc.push(c) + s.drop_first() =~= acc + s);
        if c == '"' {
            assert(w[i] == '\\' && w[i + 1] == '"');
            lemma_string_body_round(w, i + 2, s.drop_first(), acc.push(c));
        } else if c == '\\' {
            assert(w[i] == '\\' && w[i + 1] == '\\');
            lemma_string_body_round(w, i + 2, s.drop_first(), acc.push(c));
        } else if c == '\u{8}' {
            assert(w[i] == '\\' && w[i + 1] == 'b');
            lemma_string_body_round(w, i + 2, s.drop_first(), acc.push(c));
        } else if c == '\u{c}' {
            assert(w[i] == '\\' && w[i + 1] == 'f');
            lemma_string_body_round(w, i + 2, s.drop_first(), acc.push(c));
        } else if c == '\n' {
            assert(w[i] == '\\' && w[i + 1] == 'n');
            lemma_string_body_round(w, i + 2, s.drop_first(), acc.push(c));
        } else if c == '\r' {
            assert(w[i] == '\\' && w[i + 1] == 'r');
            lemma_string_body_round(w, i + 2, s.drop_first(), acc.push(c));
        } else if c == '\t' {
            assert(w[i] == '\\' && w[i + 1] == 't');
            lemma_string_body_round(w, i + 2, s.drop_first(), acc.push(c));
        } else if (c as u32) < 0x20 {
            let hi = ((c as u32) / 16) as u8;
            let lo = ((c as u32) % 16) as u8;
            assert(w[i] == '\\' && w[i + 1] == 'u' && w[i + 2] == '0' && w[i + 3] == '0');
            assert(w[i + 4] == hex_digit(hi) && w[i + 5] == hex_digit(lo));
            assert(hex_val('0') == 0);
            lemma_hex_digit_val(hi);
            lemma_hex_digit_val(lo);
            assert(i + 2 + 4 <= w.len());
            let h = hex_val(w[i + 2]) * 4096 + hex_val(w[i + 3]) * 256 + hex_val(w[i + 4]) * 16
                + hex_val(w[i + 5]);
            assert(h == hi * 16 + lo);
            assert(h == c as u32);
            assert(sp_hex4(w, i + 2) == Some(h));
            assert(h < 0xD800);
            vstd::utf8::char_u32_cast(c, c as u32);
            assert((h as u32) as char == c);
            lemma_string_body_round(w, i + 6, s.drop_first(), acc.push(c));
        } else {
            assert(e0 =~= seq![c]);
            assert(esc[0] == c);
            assert(w[i + 0] == esc[0]);
            assert(w[i] == c);
            assert(c != '"' && c != '\\' && !((c as u32) < 0x20));
            lemma_string_body_round(w, i + 1, s.drop_first(), acc.push(c));
        }
    }
}


proof fn lemma_quoted_round(w: Seq<char>, i: int, s: Seq<char>)
    requires
        0 <= i,
        i + quoted(s).len() <= w.len(),
        w.subrange(i, i + quoted(s).len()) == quoted(s),
    ensures
        w[i] == '"',
        sp_string_body(w, i + 1, Seq::empty()) == Some((s, i + quoted(s).len())),
{
    let q = quoted(s);
    let esc = json_escape(s);
    assert(q.len() == esc.len() + 2);
    assert forall|k: int| 0 <= k < q.len() implies w[i + k] == q[k] by {
        assert(w.subrange(i, i + q.len())[k] == w[i + k]);
    }
    assert(q[0] == '"');
    assert(w[i + 0] == q[0]);
    assert(w[i] == '"');
    assert(w.subrange(i + 1, i + 1 + esc.len() + 1) =~= esc + seq!['"']) by {
        assert forall|k: int| 0 <= k < esc.len() + 1 implies w.subrange(
            i + 1,
            i + 1 + esc.len() + 1,
        )[k] == (esc + seq!['"'])[k] by {
            assert(w.subrange(i + 1, i + 1 + esc.len() + 1)[k] == w[i + 1 + k]);
            assert(w[i + (1 + k)] == q[1 + k]);
            if k < esc.len() {
                assert(q[1 + k] == esc[k]);
            } else {
                assert(q[1 + k] == '"');
            }
        }
    }
    lemma_string_body_round(w, i + 1, s, Seq::empty());
    assert(Seq::empty() + s =~= s);
}

proof fn lemma_plain_string_round(w: Seq<char>, i: int, s: Seq<char>)
    requires
        0 <= i,
        forall|j: int| 0 <= j < s.len() ==> is_plain_char(s[j]),
        i + s.len() + 2 <= w.len(),
        w.subrange(i, i + s.len() + 2) == seq!['"'] + s + seq!['"'],
    ensures
        w[i] == '"',
        sp_string_body(w, i + 1, Seq::empty()) == Some((s, i + s.len() + 2)),
{
    lemma_escape_plain(s);
    assert(quoted(s) =~= seq!['"'] + s + seq!['"']);
    lemma_quoted_round(w, i, s);
}


proof fn lemma_action_object_round(w: Seq<char>, i: int, a: (Seq<char>, Seq<char>))
    requires
        0 <= i,
        i + encode_action_spec(a).len() <= w.len(),
        w.subrange(i, i + encode_action_spec(a).len()) == encode_action_spec(a),
    ensures
        w[i] == '{',
        sp_ws(w, i + 1) == i + 1,
        sp_action_members(w, i + 1, false, false, Seq::empty(), Seq::empty()) == Some(
            (a, i + encode_action_spec(a).len()),
        ),
{
    reveal_strlit("{\"title\":");
    reveal_strlit(",\"description\":");
    reveal_strlit("title");
    reveal_strlit("description");
    let img = encode_action_spec(a);
    let lit1 = "{\"title\":"@;
    let lit2 = ",\"description\":"@;
    let q0 = quoted(a.0);
    let q1 = quoted(a.1);
    let n0 = q0.len() as int;
    let n1 = q1.len() as int;
    assert(lit1.len() == 9);
    assert(lit2.len() == 15);
    assert(img == lit1 + q0 + lit2 + q1 + seq!['}']);
    assert(img.len() == 25 + q0.len() + q1.len());
    assert forall|k: int| 0 <= k < img.len() implies w[i + k] == img[k] by {
        assert(w.subrange(i, i + img.len())[k] == w[i + k]);
    }
    assert(forall|k: int| 0 <= k < 9 ==> img[k] == lit1[k]);
    assert(forall|k: int| 0 <= k < n0 ==> img[9 + k] == q0[k]);
    assert(forall|k: int| 0 <= k < 15 ==> img[9 + n0 + k] == lit2[k]);
    assert(forall|k: int| 0 <= k < q1.len() ==> img[24 + n0 + k] == q1[k]);
    assert(img[24 + n0 + n1] == '}');
    assert(img[0] == lit1[0]);
    assert(w[i + 0] == img[0]);
    assert(w[i] == '{');
    assert(img[1] == lit1[1]);
    assert(w[i + 1] == img[1]);
    assert(w[i + 1] == '"');
    assert forall|j: int| 0 <= j < "title"@.len() implies is_plain_char("title"@[j]) by {
        assert("title"@[0] == 't' && "title"@[1] == 'i' && "title"@[2] == 't' && "title"@[3]
            == 'l' && "title"@[4] == 'e');
    }
    assert forall|j: int|
        0 <= j < "description"@.len() implies is_plain_char("description"@[j]) by {
        assert("description"@[0] == 'd' && "description"@[1] == 'e' && "description"@[2] == 's'
            && "description"@[3] == 'c' && "description"@[4] == 'r' && "description"@[5] == 'i'
            && "description"@[6] == 'p' && "description"@[7] == 't' && "description"@[8] == 'i'
            && "description"@[9] == 'o' && "description"@[10] == 'n');
    }
    assert(w.subrange(i + 1, i + 8) =~= seq!['"'] + "title"@ + seq!['"']) by {
        assert forall|k: int| 0 <= k < 7 implies w.subrange(i + 1, i + 8)[k] == (seq!['"']
            + "title"@ + seq!['"'])[k] by {
            assert(w.subrange(i + 1, i + 8)[k] == w[i + (1 + k)]);
            assert(w[i + (1 + k)] == img[1 + k]);
            assert(img[1 + k] == lit1[1 + k]);
        }
    }
    lemma_plain_string_round(w, i + 1, "title"@);
    assert(!is_json_ws(w[i + 1]));
    assert(sp_ws(w, i + 1) == i + 1);
    assert(img[8] == lit1[8]);
    assert(w[i + 8] == img[8]);
    assert(w[i + 8] == ':');
    assert(sp_ws(w, i + 8) == i + 8);
    assert(img[9 + 0int] == q0[0]);
    assert(w[i + 9] == img[9]);
    assert(w[i + 9] == '"');
    assert(sp_ws(w, i + 9) == i + 9);
    assert(w.subrange(i + 9, i + 9 + n0) =~= q0) by {
        assert forall|k: int| 0 <= k < n0 implies w.subrange(i + 9, i + 9 + n0)[k]
            == q0[k] by {
            assert(w.subrange(i + 9, i + 9 + n0)[k] == w[i + (9 + k)]);
            assert(w[i + (9 + k)] == img[9 + k]);
        }
    }
    lemma_quoted_round(w, i + 9, a.0);
    let e1 = i + 9 + n0;
    assert(img[9 + n0 + 0] == lit2[0]);
    assert(w[i + (9 + n0)] == img[9 + n0]);
    assert(w[e1] == ',');
    assert(sp_ws(w, e1) == e1);
    assert(img[9 + n0 + 1] == lit2[1]);
    assert(w[i + (9 + n0 + 1)] == img[9 + n0 + 1]);
    assert(w[e1 + 1] == '"');
    assert(sp_ws(w, e1 + 1) == e1 + 1);
    assert(w.subrange(e1 + 1, e1 + 14) =~= seq!['"'] + "description"@ + seq!['"']) by {
        assert forall|k: int| 0 <= k < 13 implies w.subrange(e1 + 1, e1 + 14)[k] == (seq!['"']
            + "description"@ + seq!['"'])[k] by {
            assert(w.subrange(e1 + 1, e1 + 14)[k] == w[i + (9 + n0 + 1 + k)]);
            assert(w[i + (9 + n0 + 1 + k)] == img[9 + n0 + 1 + k]);
            assert(img[9 + n0 + (1 + k)] == lit2[1 + k]);
        }
    }
    lemma_plain_string_round(w, e1 + 1, "description"@);
    assert(img[9 + n0 + 14] == lit2[14]);
    assert(w[i + (9 + n0 + 14)] == img[9 + n0 + 14]);
    assert(w[e1 + 14] == ':');
    assert(sp_ws(w, e1 + 14) == e1 + 14);
    assert(w.subrange(e1 + 15, e1 + 15 + n1) =~= q1) by {
        assert forall|k: int| 0 <= k < n1 implies w.subrange(
            e1 + 15,
            e1 + 15 + n1,
        )[k] == q1[k] by {
            assert(w.subrange(e1 + 15, e1 + 15 + n1)[k] == w[i + (24 + n0 + k)]);
            assert(w[i + (24 + n0 + k)] == img[24 + n0 + k]);
        }
    }
    lemma_quoted_round(w, e1 + 15, a.1);
    assert(img[24 + n0 + 0] == q1[0]);
    assert(w[i + (24 + n0)] == img[24 + n0]);
    assert(w[e1 + 15] == '"');
    assert(sp_ws(w, e1 + 15) == e1 + 15);
    let e2 = e1 + 15 + n1;
    assert(w[i + (24 + n0 + n1)] == img[24 + n0 + n1]);
    assert(w[e2] == '}');
    assert(sp_ws(w, e2) == e2);
    assert("description"@ != "title"@);
    assert(Seq::empty() + "title"@ =~= "title"@);
    assert(Seq::empty() + "description"@ =~= "description"@);
    assert(a == (a.0, a.1));
    assert(sp_action_members(w, e1 + 1, true, false, a.0, Seq::empty()) == Some((a, e2 + 1)));
    assert(sp_action_members(w, i + 1, false, false, Seq::empty(), Seq::empty()) == Some(
        (a, e2 + 1),
    ));
    assert(e2 + 1 == i + img.len());
}


proof fn lemma_enc_actions_first(l: Seq<(Seq<char>, Seq<char>)>)
    requires
        l.len() >= 1,
    ensures
        encode_actions_items(l) == if l.len() == 1 {
            encode_action_spec(l[0])
        } else {
            encode_action_spec(l[0]) + seq![','] + encode_actions_items(l.drop_first())
        },
    decreases l.len(),
{
    if l.len() == 1 {
    } else if l.len() == 2 {
        assert(l.drop_last() =~= seq![l[0]]);
        assert(l.drop_first() =~= seq![l[1]]);
        assert(l.drop_first().last() == l[1]);
        assert(seq![l[0]].len() == 1 && seq![l[0]][0] == l[0]);
        assert(seq![l[1]].len() == 1 && seq![l[1]][0] == l[1]);
        assert(encode_actions_items(seq![l[0]]) == encode_action_spec(l[0]));
        assert(encode_actions_items(seq![l[1]]) == encode_action_spec(l[1]));
        assert(encode_actions_items(l.drop_first()) == encode_action_spec(l[1]));
        assert(encode_actions_items(l) == encode_actions_items(l.drop_last()) + seq![',']
            + encode_action_spec(l.last()));
        assert(encode_actions_items(l.drop_last()) == encode_action_spec(l[0]));
        assert(l.last() == l[1]);
        assert(encode_actions_items(l) =~= encode_action_spec(l[0]) + seq![',']
            + encode_actions_items(l.drop_first()));
    } else {
        let t = l.drop_last();
        lemma_enc_actions_first(t);
        assert(t.drop_first() =~= l.drop_first().drop_last());
        assert(l.drop_first().last() == l.last());
        assert(l.drop_first().len() >= 2);
        assert(encode_actions_items(l.drop_first()) == encode_actions_items(
            l.drop_first().drop_last(),
        ) + seq![','] + encode_action_spec(l.drop_first().last()));
        assert(encode_actions_items(l) == encode_actions_items(t) + seq![',']
            + encode_action_spec(l.last()));
        assert(encode_actions_items(t) == encode_action_spec(l[0]) + seq![',']
            + encode_actions_items(t.drop_first()));
        assert(encode_actions_items(t.drop_first()) == encode_actions_items(
            l.drop_first().drop_last(),
        ));
        let a0 = encode_action_spec(l[0]);
        let x = encode_actions_items(l.drop_first().drop_last());
        let e = encode_action_spec(l.last());
        assert(encode_actions_items(l) == (a0 + seq![','] + x) + seq![','] + e);
        assert(encode_action_spec(l.drop_first().last()) == e);
        assert(encode_actions_items(l.drop_first()) == x + seq![','] + e);
        assert((a0 + seq![','] + x) + seq![','] + e =~= a0 + seq![','] + (x + seq![','] + e));
        assert(encode_actions_items(l) =~= encode_action_spec(l[0]) + seq![',']
            + encode_actions_items(l.drop_first()));
    }
}

proof fn lemma_enc_action_chars(a: (Seq<char>, Seq<char>))
    ensures
        encode_action_spec(a).len() >= 26,
        encode_action_spec(a)[0] == '{',
        encode_action_spec(a)[1] == '"',
{
    reveal_strlit("{\"title\":");
    reveal_strlit(",\"description\":");
    let lit1 = "{\"title\":"@;
    assert(lit1.len() == 9);
    assert(",\"description\":"@.len() == 15);
    assert(encode_action_spec(a)[0] == lit1[0]);
    assert(encode_action_spec(a)[1] == lit1[1]);
}

proof fn lemma_actions_items_round(
    w: Seq<char>,
    i: int,
    l: Seq<(Seq<char>, Seq<char>)>,
    acc: Seq<(Seq<char>, Seq<char>)>,
)
    requires
        0 <= i,
        l.len() >= 1,
        i + encode_actions_items(l).len() + 1 <= w.len(),
        w.subrange(i, i + encode_actions_items(l).len() + 1) == encode_actions_items(l) + seq![
            ']',
        ],
    ensures
        sp_actions_items(w, i, acc) == Some((acc + l, i + encode_actions_items(l).len() + 1)),
    decreases l.len(),
{
    let img = encode_actions_items(l);
    assert forall|k: int| 0 <= k < img.len() + 1 implies w[i + k] == (img + seq![']'])[k] by {
        assert(w.subrange(i, i + img.len() + 1)[k] == w[i + k]);
    }
    lemma_enc_actions_first(l);
    let a = l[0];
    let ia = encode_action_spec(a);
    let na = ia.len() as int;
    lemma_enc_action_chars(a);
    assert(forall|k: int| 0 <= k < na ==> img[k] == ia[k]);
    assert(w.subrange(i, i + na) =~= ia) by {
        assert forall|k: int| 0 <= k < na implies w.subrange(i, i + na)[k] == ia[k] by {
            assert(w.subrange(i, i + na)[k] == w[i + k]);
            assert((img + seq![']'])[k] == img[k]);
        }
    }
    lemma_action_object_round(w, i, a);
    let e = i + na;
    assert(acc.push(a) + l.drop_first() =~= acc + l);
    if l.len() == 1 {
        assert(img == ia);
        assert((img + seq![']'])[na] == ']');
        assert(w[i + na] == (img + seq![']'])[na]);
        assert(w[e] == ']');
        assert(sp_ws(w, e) == e);
        assert(acc.push(a) =~= acc + l);
    } else {
        let rest = encode_actions_items(l.drop_first());
        assert(img == ia + seq![','] + rest);
        assert(img[na] == ',');
        assert(w[i + na] == (img + seq![']'])[na]);
        assert((img + seq![']'])[na] == img[na]);
        assert(w[e] == ',');
        assert(sp_ws(w, e) == e);
        let n = e + 1;
        lemma_enc_actions_first(l.drop_first());
        lemma_enc_action_chars(l.drop_first()[0]);
        assert(rest[0] == encode_action_spec(l.drop_first()[0])[0]);
        assert(img[na + 1 + 0] == rest[0]);
        assert(w[i + (na + 1)] == (img + seq![']'])[na + 1]);
        assert((img + seq![']'])[na + 1] == img[na + 1]);
        assert(w[n] == '{');
        assert(sp_ws(w, n) == n);
        assert(w.subrange(n, n + rest.len() + 1) =~= rest + seq![']']) by {
            assert forall|k: int| 0 <= k < rest.len() + 1 implies w.subrange(
                n,
                n + rest.len() + 1,
            )[k] == (rest + seq![']'])[k] by {
                assert(w.subrange(n, n + rest.len() + 1)[k] == w[i + (na + 1 + k)]);
                assert(w[i + (na + 1 + k)] == (img + seq![']'])[na + 1 + k]);
                if k < rest.len() {
                    assert((img + seq![']'])[na + 1 + k] == img[na + 1 + k]);
                    assert(img[na + 1 + k] == rest[k]);
                } else {
                    assert(na + 1 + k == img.len());
                }
            }
        }
        lemma_actions_items_round(w, n, l.drop_first(), acc.push(a));
    }
}

proof fn lemma_enc_topics_first(l: Seq<Seq<char>>)
    requires
        l.len() >= 1,
    ensures
        encode_topics_items(l) == if l.len() == 1 {
            quoted(l[0])
        } else {
            quoted(l[0]) + seq![','] + encode_topics_items(l.drop_first())
        },
    decreases l.len(),
{
    if l.len() == 1 {
    } else if l.len() == 2 {
        assert(l.drop_last() =~= seq![l[0]]);
        assert(l.drop_first() =~= seq![l[1]]);
        assert(l.drop_first().last() == l[1]);
        assert(seq![l[0]].len() == 1 && seq![l[0]][0] == l[0]);
        assert(seq![l[1]].len() == 1 && seq![l[1]][0] == l[1]);
        assert(encode_topics_items(seq![l[0]]) == quoted(l[0]));
        assert(encode_topics_items(seq![l[1]]) == quoted(l[1]));
        assert(encode_topics_items(l.drop_first()) == quoted(l[1]));
        assert(encode_topics_items(l) == encode_topics_items(l.drop_last()) + seq![','] + quoted(
            l.last(),
        ));
        assert(encode_topics_items(l.drop_last()) == quoted(l[0]));
        assert(l.last() == l[1]);
        assert(encode_topics_items(l) =~= quoted(l[0]) + seq![','] + encode_topics_items(
            l.drop_first(),
        ));
    } else {
        let t = l.drop_last();
        lemma_enc_topics_first(t);
        assert(t.drop_first() =~= l.drop_first().drop_last());
        assert(l.drop_first().last() == l.last());
        assert(l.drop_first().len() >= 2);
        assert(encode_topics_items(l.drop_first()) == encode_topics_items(
            l.drop_first().drop_last(),
        ) + seq![','] + quoted(l.drop_first().last()));
        assert(encode_topics_items(l) == encode_topics_items(t) + seq![','] + quoted(l.last()));
        assert(encode_topics_items(t) == quoted(l[0]) + seq![','] + encode_topics_items(
            t.drop_first(),
        ));
        assert(encode_topics_items(t.drop_first()) == encode_topics_items(
            l.drop_first().drop_last(),
        ));
        let a0 = quoted(l[0]);
        let x = encode_topics_items(l.drop_first().drop_last());
        let e = quoted(l.last());
        assert(encode_topics_items(l) == (a0 + seq![','] + x) + seq![','] + e);
        assert(quoted(l.drop_first().last()) == e);
        assert(encode_topics_items(l.drop_first()) == x + seq![','] + e);
        assert((a0 + seq![','] + x) + seq![','] + e =~= a0 + seq![','] + (x + seq![','] + e));
        assert(encode_topics_items(l) =~= quoted(l[0]) + seq![','] + encode_topics_items(
            l.drop_first(),
        ));
    }
}

proof fn lemma_topics_items_round(w: Seq<char>, i: int, l: Seq<Seq<char>>, acc: Seq<Seq<char>>)
    requires
        0 <= i,
        l.len() >= 1,
        i + encode_topics_items(l).len() + 1 <= w.len(),
        w.subrange(i, i + encode_topics_items(l).len() + 1) == encode_topics_items(l) + seq![
            ']',
        ],
    ensures
        sp_topics_items(w, i, acc) == Some((acc + l, i + encode_topics_items(l).len() + 1)),
    decreases l.len(),
{
    let img = encode_topics_items(l);
    assert forall|k: int| 0 <= k < img.len() + 1 implies w[i + k] == (img + seq![']'])[k] by {
        assert(w.subrange(i, i + img.len() + 1)[k] == w[i + k]);
    }
    lemma_enc_topics_first(l);
    let a = l[0];
    let qa = quoted(a);
    let na = qa.len() as int;
    assert(forall|k: int| 0 <= k < na ==> img[k] == qa[k]);
    assert(w.subrange(i, i + na) =~= qa) by {
        assert forall|k: int| 0 <= k < na implies w.subrange(i, i + na)[k] == qa[k] by {
            assert(w.subrange(i, i + na)[k] == w[i + k]);
            assert((img + seq![']'])[k] == img[k]);
        }
    }
    lemma_quoted_round(w, i, a);
    let e = i + na;
    assert(acc.push(a) + l.drop_first() =~= acc + l);
    if l.len() == 1 {
        assert(img == qa);
        assert((img + seq![']'])[na] == ']');
        assert(w[i + na] == (img + seq![']'])[na]);
        assert(w[e] == ']');
        assert(sp_ws(w, e) == e);
        assert(acc.push(a) =~= acc + l);
    } else {
        let rest = encode_topics_items(l.drop_first());
        assert(img == qa + seq![','] + rest);
        assert(img[na] == ',');
        assert(w[i + na] == (img + seq![']'])[na]);
        assert((img + seq![']'])[na] == img[na]);
        assert(w[e] == ',');
        assert(sp_ws(w, e) == e);
        let n = e + 1;
        lemma_enc_topics_first(l.drop_first());
        assert(rest[0] == quoted(l.drop_first()[0])[0]);
        assert(quoted(l.drop_first()[0])[0] == '"');
        assert(img[na + 1 + 0] == rest[0]);
        assert(w[i + (na + 1)] == (img + seq![']'])[na + 1]);
        assert((img + seq![']'])[na + 1] == img[na + 1]);
        assert(w[n] == '"');
        assert(sp_ws(w, n) == n);
        assert(w.subrange(n, n + rest.len() + 1) =~= rest + seq![']']) by {
            assert forall|k: int| 0 <= k < rest.len() + 1 implies w.subrange(
                n,
                n + rest.len() + 1,
            )[k] == (rest + seq![']'])[k] by {
                assert(w.subrange(n, n + rest.len() + 1)[k] == w[i + (na + 1 + k)]);
                assert(w[i + (na + 1 + k)] == (img + seq![']'])[na + 1 + k]);
                if k < rest.len() {
                    assert((img + seq![']'])[na + 1 + k] == img[na + 1 + k]);
                    assert(img[na + 1 + k] == rest[k]);
                } else {
                    assert(na + 1 + k == img.len());
                }
            }
        }
        lemma_topics_items_round(w, n, l.drop_first(), acc.push(a));
    }
}




proof fn lemma_topics_value_round(w: Seq<char>, i: int, tl: Option<Seq<Seq<char>>>)
    requires
        0 <= i,
        i + enc_topics_value(tl).len() <= w.len(),
        w.subrange(i, i + enc_topics_value(tl).len()) == enc_topics_value(tl),
    ensures
        tl is None ==> sp_is_null(w, i) && enc_topics_value(tl).len() == 4 && sp_ws(w, i) == i,
        tl matches Some(l) ==> !sp_is_null(w, i) && w[i] == '[' && sp_ws(w, i) == i && sp_ws(
            w,
            i + 1,
        ) == i + 1 && i + 1 < w.len() && (if l.len() == 0 {
            w[i + 1] == ']' && enc_topics_value(tl).len() == 2
        } else {
            w[i + 1] == '"' && sp_topics_items(w, i + 1, Seq::empty()) == Some(
                (l, i + enc_topics_value(tl).len()),
            )
        }),
{
    reveal_strlit("null");
    let tv = enc_topics_value(tl);
    let ntv = tv.len() as int;
    assert forall|k: int| 0 <= k < ntv implies w[i + k] == tv[k] by {
        assert(w.subrange(i, i + ntv)[k] == w[i + k]);
    }
    if tl is Some {
        let l = tl->0;
        assert(tv == seq!['['] + encode_topics_items(l) + seq![']']);
        assert(tv[0] == '[');
        assert(w[i + 0] == tv[0]);
        assert(w[i] == '[');
        assert(!sp_is_null(w, i));
        assert(sp_ws(w, i) == i);
        let inner = encode_topics_items(l);
        let ni = inner.len() as int;
        assert(ntv == ni + 2);
        if l.len() == 0 {
            assert(inner =~= Seq::<char>::empty());
            assert(tv[1] == ']');
            assert(w[i + 1] == tv[1]);
            assert(sp_ws(w, i + 1) == i + 1);
        } else {
            lemma_enc_topics_first(l);
            assert(inner[0] == quoted(l[0])[0]);
            assert(quoted(l[0])[0] == '"');
            assert(tv[1int + 0] == inner[0]);
            assert(w[i + 1] == tv[1]);
            assert(w[i + 1] == '"');
            assert(sp_ws(w, i + 1) == i + 1);
            assert(w.subrange(i + 1, i + 1 + ni + 1) =~= inner + seq![']']) by {
                assert forall|k: int| 0 <= k < ni + 1 implies w.subrange(
                    i + 1,
                    i + 1 + ni + 1,
                )[k] == (inner + seq![']'])[k] by {
                    assert(w.subrange(i + 1, i + 1 + ni + 1)[k] == w[i + (1 + k)]);
                    assert(w[i + (1 + k)] == tv[1 + k]);
                    if k < ni {
                        assert(tv[1 + k] == inner[k]);
                    } else {
                        assert(tv[1 + k] == ']');
                    }
                }
            }
            lemma_topics_items_round(w, i + 1, l, Seq::empty());
            assert(Seq::empty() + l =~= l);
        }
    } else {
        assert(tv == "null"@);
        assert("null"@[0] == 'n' && "null"@[1] == 'u' && "null"@[2] == 'l' && "null"@[3] == 'l');
        assert(ntv == 4);
        assert(w[i + 0] == tv[0]);
        assert(w[i + 1] == tv[1]);
        assert(w[i + 2] == tv[2]);
        assert(w[i + 3] == tv[3]);
        assert(sp_is_null(w, i));
        assert(!is_json_ws('n'));
        assert(sp_ws(w, i) == i);
    }
}

#[verifier::rlimit(100)]
proof fn lemma_member_topics_round(
    w: Seq<char>,
    i: int,
    tl: Option<Seq<Seq<char>>>,
    acc: InsightsView,
)
    requires
        0 <= i,
        acc.topics is None,
        i + 10 + enc_topics_value(tl).len() <= w.len(),
        w.subrange(i, i + 10 + enc_topics_value(tl).len()) == "\"topics\":"@ + enc_topics_value(
            tl,
        ) + seq!['}'],
    ensures
        sp_insights_members(w, i, true, true, false, acc) == Some(
            (InsightsView { topics: tl, ..acc }, i + 10 + enc_topics_value(tl).len()),
        ),
{
    reveal_strlit("\"topics\":");
    reveal_strlit("topics");
    reveal_strlit("summary");
    reveal_strlit("actions");
    reveal_strlit("null");
    let key = "\"topics\":"@;
    assert(key.len() == 9);
    let tv = enc_topics_value(tl);
    let ntv = tv.len() as int;
    let img = key + tv + seq!['}'];
    assert(img.len() == 10 + ntv);
    assert forall|k: int| 0 <= k < img.len() implies w[i + k] == img[k] by {
        assert(w.subrange(i, i + 10 + ntv)[k] == w[i + k]);
    }
    assert(forall|k: int| 0 <= k < 9 ==> img[k] == key[k]);
    assert(forall|k: int| 0 <= k < ntv ==> img[9 + k] == tv[k]);
    assert(img[9 + ntv] == '}');
    assert forall|j: int| 0 <= j < "topics"@.len() implies is_plain_char("topics"@[j]) by {
        assert("topics"@[0] == 't' && "topics"@[1] == 'o' && "topics"@[2] == 'p' && "topics"@[3]
            == 'i' && "topics"@[4] == 'c' && "topics"@[5] == 's');
    }
    assert("topics"@.len() != "summary"@.len());
    assert("topics"@.len() != "actions"@.len());
    assert(img[0] == key[0]);
    assert(w[i + 0] == img[0]);
    assert(w[i] == '"');
    assert(w.subrange(i, i + 8) =~= seq!['"'] + "topics"@ + seq!['"']) by {
        assert forall|k: int| 0 <= k < 8 implies w.subrange(i, i + 8)[k] == (seq!['"']
            + "topics"@ + seq!['"'])[k] by {
            assert(w.subrange(i, i + 8)[k] == w[i + k]);
            assert(w[i + k] == img[k]);
            assert(img[k] == key[k]);
        }
    }
    lemma_plain_string_round(w, i, "topics"@);
    assert(Seq::empty() + "topics"@ =~= "topics"@);
    assert(img[8] == key[8]);
    assert(w[i + 8] == img[8]);
    assert(w[i + 8] == ':');
    assert(sp_ws(w, i + 8) == i + 8);
    let vq = i + 9;
    assert(w.subrange(vq, vq + ntv) =~= tv) by {
        assert forall|k: int| 0 <= k < ntv implies w.subrange(vq, vq + ntv)[k] == tv[k] by {
            assert(w.subrange(vq, vq + ntv)[k] == w[i + (9 + k)]);
            assert(w[i + (9 + k)] == img[9 + k]);
        }
    }
    lemma_topics_value_round(w, vq, tl);
    if tl is Some && tl->0.len() == 0 {
        assert(tl->0 =~= Seq::<Seq<char>>::empty());
        assert(Some(Seq::<Seq<char>>::empty()) == tl);
    }
    if tl is None {
        assert(InsightsView { topics: tl, ..acc } == acc);
    }
    let e = vq + ntv;
    assert(img[9 + ntv] == '}');
    assert(w[i + (9 + ntv)] == img[9 + ntv]);
    assert(w[e] == '}');
    assert(sp_ws(w, e) == e);
    assert(sp_insights_members(w, i, true, true, false, acc) == Some(
        (InsightsView { topics: tl, ..acc }, e + 1),
    ));
}


proof fn lemma_actions_value_round(w: Seq<char>, i: int, al: Option<Seq<(Seq<char>, Seq<char>)>>)
    requires
        0 <= i,
        i + enc_actions_value(al).len() <= w.len(),
        w.subrange(i, i + enc_actions_value(al).len()) == enc_actions_value(al),
    ensures
        al is None ==> sp_is_null(w, i) && enc_actions_value(al).len() == 4 && sp_ws(w, i) == i,
        al matches Some(l) ==> !sp_is_null(w, i) && w[i] == '[' && sp_ws(w, i) == i && sp_ws(
            w,
            i + 1,
        ) == i + 1 && i + 1 < w.len() && (if l.len() == 0 {
            w[i + 1] == ']' && enc_actions_value(al).len() == 2
        } else {
            w[i + 1] == '{' && sp_actions_items(w, i + 1, Seq::empty()) == Some(
                (l, i + enc_actions_value(al).len()),
            )
        }),
{
    reveal_strlit("null");
    let av = enc_actions_value(al);
    let nav = av.len() as int;
    assert forall|k: int| 0 <= k < nav implies w[i + k] == av[k] by {
        assert(w.subrange(i, i + nav)[k] == w[i + k]);
    }
    if al is Some {
        let l = al->0;
        assert(av == seq!['['] + encode_actions_items(l) + seq![']']);
        assert(av[0] == '[');
        assert(w[i + 0] == av[0]);
        assert(w[i] == '[');
        assert(!sp_is_null(w, i));
        assert(sp_ws(w, i) == i);
        let inner = encode_actions_items(l);
        let ni = inner.len() as int;
        assert(nav == ni + 2);
        if l.len() == 0 {
            assert(inner =~= Seq::<char>::empty());
            assert(av[1] == ']');
            assert(w[i + 1] == av[1]);
            assert(sp_ws(w, i + 1) == i + 1);
        } else {
            lemma_enc_actions_first(l);
            lemma_enc_action_chars(l[0]);
            assert(inner[0] == encode_action_spec(l[0])[0]);
            assert(av[1int + 0] == inner[0]);
            assert(w[i + 1] == av[1]);
            assert(w[i + 1] == '{');
            assert(sp_ws(w, i + 1) == i + 1);
            assert(w.subrange(i + 1, i + 1 + ni + 1) =~= inner + seq![']']) by {
                assert forall|k: int| 0 <= k < ni + 1 implies w.subrange(
                    i + 1,
                    i + 1 + ni + 1,
                )[k] == (inner + seq![']'])[k] by {
                    assert(w.subrange(i + 1, i + 1 + ni + 1)[k] == w[i + (1 + k)]);
                    assert(w[i + (1 + k)] == av[1 + k]);
                    if k < ni {
                        assert(av[1 + k] == inner[k]);
                    } else {
                        assert(av[1 + k] == ']');
                    }
                }
            }
            lemma_actions_items_round(w, i + 1, l, Seq::empty());
            assert(Seq::empty() + l =~= l);
        }
    } else {
        assert(av == "null"@);
        assert("null"@[0] == 'n' && "null"@[1] == 'u' && "null"@[2] == 'l' && "null"@[3] == 'l');
        assert(nav == 4);
        assert(w[i + 0] == av[0]);
        assert(w[i + 1] == av[1]);
        assert(w[i + 2] == av[2]);
        assert(w[i + 3] == av[3]);
        assert(sp_is_null(w, i));
        assert(!is_json_ws('n'));
        assert(sp_ws(w, i) == i);
    }
}

#[verifier::rlimit(100)]
proof fn lemma_member_actions_round(
    w: Seq<char>,
    i: int,
    al: Option<Seq<(Seq<char>, Seq<char>)>>,
    tl: Option<Seq<Seq<char>>>,
    acc: InsightsView,
)
    requires
        0 <= i,
        acc.actions is None,
        acc.topics is None,
        i + 21 + enc_actions_value(al).len() + enc_topics_value(tl).len() <= w.len(),
        w.subrange(
            i,
            i + 21 + enc_actions_value(al).len() + enc_topics_value(tl).len(),
        ) == "\"actions\":"@ + enc_actions_value(al) + seq![','] + "\"topics\":"@
            + enc_topics_value(tl) + seq!['}'],
    ensures
        sp_insights_members(w, i, true, false, false, acc) == Some(
            (
                InsightsView { actions: al, topics: tl, ..acc },
                i + 21 + enc_actions_value(al).len() + enc_topics_value(tl).len(),
            ),
        ),
{
    reveal_strlit("\"actions\":");
    reveal_strlit("actions");
    reveal_strlit("summary");
    reveal_strlit("null");
    let key = "\"actions\":"@;
    assert(key.len() == 10);
    let av = enc_actions_value(al);
    let nav = av.len() as int;
    let tv = enc_topics_value(tl);
    let ntv = tv.len() as int;
    reveal_strlit("\"topics\":");
    let tail_img = "\"topics\":"@ + tv + seq!['}'];
    assert(tail_img.len() == 10 + ntv);
    let img = key + av + seq![','] + tail_img;
    assert(img.len() == 21 + nav + ntv);
    assert forall|k: int| 0 <= k < img.len() implies w[i + k] == img[k] by {
        assert(w.subrange(i, i + 21 + nav + ntv)[k] == w[i + k]);
    }
    assert(forall|k: int| 0 <= k < 10 ==> img[k] == key[k]);
    assert(forall|k: int| 0 <= k < nav ==> img[10 + k] == av[k]);
    assert(img[10 + nav] == ',');
    assert(forall|k: int| 0 <= k < 10 + ntv ==> img[11 + nav + k] == tail_img[k]);
    assert forall|j: int| 0 <= j < "actions"@.len() implies is_plain_char("actions"@[j]) by {
        assert("actions"@[0] == 'a' && "actions"@[1] == 'c' && "actions"@[2] == 't'
            && "actions"@[3] == 'i' && "actions"@[4] == 'o' && "actions"@[5] == 'n'
            && "actions"@[6] == 's');
    }
    assert("actions"@ != "summary"@) by {
        assert("actions"@[0] == 'a' && "summary"@[0] == 's');
    }
    assert(img[0] == key[0]);
    assert(w[i + 0] == img[0]);
    assert(w[i] == '"');
    assert(w.subrange(i, i + 9) =~= seq!['"'] + "actions"@ + seq!['"']) by {
        assert forall|k: int| 0 <= k < 9 implies w.subrange(i, i + 9)[k] == (seq!['"']
            + "actions"@ + seq!['"'])[k] by {
            assert(w.subrange(i, i + 9)[k] == w[i + k]);
            assert(w[i + k] == img[k]);
            assert(img[k] == key[k]);
        }
    }
    lemma_plain_string_round(w, i, "actions"@);
    assert(Seq::empty() + "actions"@ =~= "actions"@);
    assert(img[9] == key[9]);
    assert(w[i + 9] == img[9]);
    assert(w[i + 9] == ':');
    assert(sp_ws(w, i + 9) == i + 9);
    let vq = i + 10;
    assert(w.subrange(vq, vq + nav) =~= av) by {
        assert forall|k: int| 0 <= k < nav implies w.subrange(vq, vq + nav)[k] == av[k] by {
            assert(w.subrange(vq, vq + nav)[k] == w[i + (10 + k)]);
            assert(w[i + (10 + k)] == img[10 + k]);
        }
    }
    lemma_actions_value_round(w, vq, al);
    if al is Some && al->0.len() == 0 {
        assert(al->0 =~= Seq::<(Seq<char>, Seq<char>)>::empty());
        assert(Some(Seq::<(Seq<char>, Seq<char>)>::empty()) == al);
    }
    let e = vq + nav;
    assert(w[i + (10 + nav)] == img[10 + nav]);
    assert(w[e] == ',');
    assert(sp_ws(w, e) == e);
    let n = e + 1;
    assert(tail_img[0] == '"');
    assert(img[11 + nav + 0] == tail_img[0]);
    assert(w[i + (11 + nav)] == img[11 + nav]);
    assert(w[n] == '"');
    assert(sp_ws(w, n) == n);
    let acc2 = InsightsView { actions: al, ..acc };
    assert(acc2.topics is None);
    assert(w.subrange(n, n + 10 + ntv) =~= tail_img) by {
        assert forall|k: int| 0 <= k < 10 + ntv implies w.subrange(n, n + 10 + ntv)[k]
            == tail_img[k] by {
            assert(w.subrange(n, n + 10 + ntv)[k] == w[i + (11 + nav + k)]);
            assert(w[i + (11 + nav + k)] == img[11 + nav + k]);
        }
    }
    lemma_member_topics_round(w, n, tl, acc2);
    assert(InsightsView { topics: tl, ..acc2 } == InsightsView { actions: al, topics: tl, ..acc });
    if al is None {
        assert(acc2 == acc);
    }
    assert(sp_insights_members(w, i, true, false, false, acc) == Some(
        (InsightsView { actions: al, topics: tl, ..acc }, n + 10 + ntv),
    ));
    assert(n + 10 + ntv == i + 21 + nav + ntv);
}


proof fn lemma_summary_value_round(w: Seq<char>, i: int, sv: Option<Seq<char>>)
    requires
        0 <= i,
        i + enc_summary_value(sv).len() <= w.len(),
        w.subrange(i, i + enc_summary_value(sv).len()) == enc_summary_value(sv),
    ensures
        sv is None ==> sp_is_null(w, i) && enc_summary_value(sv).len() == 4 && sp_ws(w, i) == i,
        sv matches Some(st) ==> !sp_is_null(w, i) && w[i] == '"' && i < w.len() && sp_ws(w, i)
            == i && sp_string_body(w, i + 1, Seq::empty()) == Some(
            (st, i + enc_summary_value(sv).len()),
        ),
{
    reveal_strlit("null");
    let svv = enc_summary_value(sv);
    let nsv = svv.len() as int;
    assert forall|k: int| 0 <= k < nsv implies w[i + k] == svv[k] by {
        assert(w.subrange(i, i + nsv)[k] == w[i + k]);
    }
    if sv is Some {
        let st = sv->0;
        assert(svv == quoted(st));
        assert(svv[0] == '"');
        assert(w[i + 0] == svv[0]);
        assert(w[i] == '"');
        assert(!sp_is_null(w, i));
        assert(sp_ws(w, i) == i);
        lemma_quoted_round(w, i, st);
    } else {
        assert(svv == "null"@);
        assert("null"@[0] == 'n' && "null"@[1] == 'u' && "null"@[2] == 'l' && "null"@[3] == 'l');
        assert(nsv == 4);
        assert(w[i + 0] == svv[0]);
        assert(w[i + 1] == svv[1]);
        assert(w[i + 2] == svv[2]);
        assert(w[i + 3] == svv[3]);
        assert(sp_is_null(w, i));
        assert(!is_json_ws('n'));
        assert(sp_ws(w, i) == i);
    }
}

#[verifier::rlimit(100)]
proof fn lemma_member_summary_round(
    w: Seq<char>,
    i: int,
    sv: Option<Seq<char>>,
    al: Option<Seq<(Seq<char>, Seq<char>)>>,
    tl: Option<Seq<Seq<char>>>,
    acc: InsightsView,
)
    requires
        0 <= i,
        acc.summary is None,
        acc.actions is None,
        acc.topics is None,
        i + 32 + enc_summary_value(sv).len() + enc_actions_value(al).len()
            + enc_topics_value(tl).len() <= w.len(),
        w.subrange(
            i,
            i + 32 + enc_summary_value(sv).len() + enc_actions_value(al).len()
                + enc_topics_value(tl).len(),
        ) == "\"summary\":"@ + enc_summary_value(sv) + seq![','] + "\"actions\":"@
            + enc_actions_value(al) + seq![','] + "\"topics\":"@ + enc_topics_value(tl) + seq![
            '}',
        ],
    ensures
        sp_insights_members(w, i, false, false, false, acc) == Some(
            (
                InsightsView { summary: sv, actions: al, topics: tl, ..acc },
                i + 32 + enc_summary_value(sv).len() + enc_actions_value(al).len()
                    + enc_topics_value(tl).len(),
            ),
        ),
{
    reveal_strlit("\"summary\":");
    reveal_strlit("\"actions\":");
    reveal_strlit("\"topics\":");
    reveal_strlit("summary");
    reveal_strlit("null");
    let key = "\"summary\":"@;
    assert(key.len() == 10);
    let svv = enc_summary_value(sv);
    let nsv = svv.len() as int;
    let av = enc_actions_value(al);
    let nav = av.len() as int;
    let tv = enc_topics_value(tl);
    let ntv = tv.len() as int;
    let tail_img = "\"actions\":"@ + av + seq![','] + "\"topics\":"@ + tv + seq!['}'];
    assert(tail_img.len() == 21 + nav + ntv);
    let img = key + svv + seq![','] + tail_img;
    assert(img =~= w.subrange(i, i + 32 + nsv + nav + ntv));
    assert(img.len() == 32 + nsv + nav + ntv);
    assert forall|k: int| 0 <= k < img.len() implies w[i + k] == img[k] by {
        assert(w.subrange(i, i + 32 + nsv + nav + ntv)[k] == w[i + k]);
    }
    assert(forall|k: int| 0 <= k < 10 ==> img[k] == key[k]);
    assert(forall|k: int| 0 <= k < nsv ==> img[10 + k] == svv[k]);
    assert(img[10 + nsv] == ',');
    assert(forall|k: int| 0 <= k < 21 + nav + ntv ==> img[11 + nsv + k] == tail_img[k]);
    assert forall|j: int| 0 <= j < "summary"@.len() implies is_plain_char("summary"@[j]) by {
        assert("summary"@[0] == 's' && "summary"@[1] == 'u' && "summary"@[2] == 'm'
            && "summary"@[3] == 'm' && "summary"@[4] == 'a' && "summary"@[5] == 'r'
            && "summary"@[6] == 'y');
    }
    assert(img[0] == key[0]);
    assert(w[i + 0] == img[0]);
    assert(w[i] == '"');
    assert(w.subrange(i, i + 9) =~= seq!['"'] + "summary"@ + seq!['"']) by {
        assert forall|k: int| 0 <= k < 9 implies w.subrange(i, i + 9)[k] == (seq!['"']
            + "summary"@ + seq!['"'])[k] by {
            assert(w.subrange(i, i + 9)[k] == w[i + k]);
            assert(w[i + k] == img[k]);
            assert(img[k] == key[k]);
        }
    }
    lemma_plain_string_round(w, i, "summary"@);
    assert(Seq::empty() + "summary"@ =~= "summary"@);
    assert(img[9] == key[9]);
    assert(w[i + 9] == img[9]);
    assert(w[i + 9] == ':');
    assert(sp_ws(w, i + 9) == i + 9);
    let vq = i + 10;
    assert(w.subrange(vq, vq + nsv) =~= svv) by {
        assert forall|k: int| 0 <= k < nsv implies w.subrange(vq, vq + nsv)[k] == svv[k] by {
            assert(w.subrange(vq, vq + nsv)[k] == w[i + (10 + k)]);
            assert(w[i + (10 + k)] == img[10 + k]);
        }
    }
    lemma_summary_value_round(w, vq, sv);
    let e = vq + nsv;
    assert(w[i + (10 + nsv)] == img[10 + nsv]);
    assert(w[e] == ',');
    assert(sp_ws(w, e) == e);
    let n = e + 1;
    assert(tail_img[0] == '"');
    assert(img[11 + nsv + 0] == tail_img[0]);
    assert(w[i + (11 + nsv)] == img[11 + nsv]);
    assert(w[n] == '"');
    assert(sp_ws(w, n) == n);
    let acc2 = InsightsView { summary: sv, ..acc };
    assert(acc2.actions is None);
    assert(acc2.topics is None);
    assert(w.subrange(n, n + 21 + nav + ntv) =~= tail_img) by {
        assert forall|k: int| 0 <= k < 21 + nav + ntv implies w.subrange(
            n,
            n + 21 + nav + ntv,
        )[k] == tail_img[k] by {
            assert(w.subrange(n, n + 21 + nav + ntv)[k] == w[i + (11 + nsv + k)]);
            assert(w[i + (11 + nsv + k)] == img[11 + nsv + k]);
        }
    }
    lemma_member_actions_round(w, n, al, tl, acc2);
    assert(InsightsView { actions: al, topics: tl, ..acc2 } == InsightsView {
        summary: sv,
        actions: al,
        topics: tl,
        ..acc
    });
    if sv is None {
        assert(acc2 == acc);
    }
    assert(sp_insights_members(w, i, false, false, false, acc) == Some(
        (InsightsView { summary: sv, actions: al, topics: tl, ..acc }, n + 21 + nav + ntv),
    ));
    assert(n + 21 + nav + ntv == i + 32 + nsv + nav + ntv);
}

proof fn lemma_encode_shape(v: InsightsView)
    ensures
        encode_insights_spec(v) == seq!['{'] + ("\"summary\":"@ + enc_summary_value(v.summary)
            + seq![','] + "\"actions\":"@ + enc_actions_value(v.actions) + seq![',']
            + "\"topics\":"@ + enc_topics_value(v.topics) + seq!['}']),
{
    reveal_strlit("{\"summary\":");
    reveal_strlit("\"summary\":");
    reveal_strlit(",\"actions\":");
    reveal_strlit("\"actions\":");
    reveal_strlit(",\"topics\":");
    reveal_strlit("\"topics\":");
    assert("{\"summary\":"@ =~= seq!['{'] + "\"summary\":"@);
    assert(",\"actions\":"@ =~= seq![','] + "\"actions\":"@);
    assert(",\"topics\":"@ =~= seq![','] + "\"topics\":"@);
    assert(encode_insights_spec(v) =~= seq!['{'] + ("\"summary\":"@ + enc_summary_value(
        v.summary,
    ) + seq![','] + "\"actions\":"@ + enc_actions_value(v.actions) + seq![','] + "\"topics\":"@
        + enc_topics_value(v.topics) + seq!['}']));
}

/// The cache file round trip: the JSON document the writer produces for a
/// record always reads back, through the structured branch of the cache
/// reader, as exactly that record — whatever its texts hold. Together
/// with the merge laws this shows a cached field survives any later
/// read-merge-write cycle.
#[verifier::rlimit(100)]
pub proof fn lemma_cache_round_trip(v: InsightsView)
    ensures
        sp_insights_doc(encode_insights_spec(v)) == Some(v),
{
    reveal_strlit("\"summary\":");
    reveal_strlit("\"actions\":");
    reveal_strlit("\"topics\":");
    let w = encode_insights_spec(v);
    let nsv = enc_summary_value(v.summary).len() as int;
    let nav = enc_actions_value(v.actions).len() as int;
    let ntv = enc_topics_value(v.topics).len() as int;
    lemma_encode_shape(v);
    let m = "\"summary\":"@ + enc_summary_value(v.summary) + seq![','] + "\"actions\":"@
        + enc_actions_value(v.actions) + seq![','] + "\"topics\":"@ + enc_topics_value(v.topics)
        + seq!['}'];
    assert(w == seq!['{'] + m);
    assert(m.len() == 32 + nsv + nav + ntv);
    assert(w.len() == 33 + nsv + nav + ntv);
    assert(w[0] == '{');
    assert(m[0] == '"');
    assert(w[1] == m[0]);
    assert(sp_ws(w, 0) == 0);
    assert(sp_ws(w, 1) == 1);
    assert(w.subrange(1, w.len() as int) =~= m) by {
        assert forall|k: int| 0 <= k < m.len() implies w.subrange(1, w.len() as int)[k]
            == m[k] by {
            assert(w.subrange(1, w.len() as int)[k] == w[1 + k]);
            assert((seq!['{'] + m)[1 + k] == m[k]);
        }
    }
    lemma_member_summary_round(w, 1, v.summary, v.actions, v.topics, empty_insights_view());
    assert(InsightsView {
        summary: v.summary,
        actions: v.actions,
        topics: v.topics,
        ..empty_insights_view()
    } == v);
    assert(1 + 32 + nsv + nav + ntv == w.len());
    assert(sp_ws(w, w.len() as int) == w.len());
    assert(sp_insights_doc(w) == Some(v));
}

} // verus!
