//! A small verified JSON codec, specialised to the objects this
//! protocol exchanges: one object whose interpreted member values are
//! scalars (strings, numbers, booleans or null). A nested array or
//! object member is syntax-checked and carried as its raw text;
//! numbers are kept as their literal lexeme: the protocol never
//! interprets either.

use vstd::prelude::*;
use vstd::string::*;
use crate::text::push_char;

verus! {

/// Mathematical value of a JSON member: a decoded string, a number
/// or literal kept as written, or a nested value kept as its raw,
/// syntax-checked text, which the protocol never interprets.
pub enum JsonItem {
    Null,
    Truth(bool),
    Num(Seq<char>),
    Text(Seq<char>),
    Composite(Seq<char>),
}

/// Executable JSON member; its view is a [`JsonItem`].
pub enum JsonScalar {
    Null,
    Truth(bool),
    Num(String),
    Text(String),
    Composite(String),
}

impl View for JsonScalar {
    type V = JsonItem;

    open spec fn view(&self) -> JsonItem {
        match self {
            JsonScalar::Null => JsonItem::Null,
            JsonScalar::Truth(b) => JsonItem::Truth(*b),
            JsonScalar::Num(l) => JsonItem::Num(l@),
            JsonScalar::Text(t) => JsonItem::Text(t@),
            JsonScalar::Composite(r) => JsonItem::Composite(r@),
        }
    }
}

/// The mathematical contents of an executable member list.
pub open spec fn fields_view(v: Seq<(String, JsonScalar)>) -> Seq<(Seq<char>, JsonItem)> {
    v.map_values(|p: (String, JsonScalar)| (p.0@, p.1@))
}

/// JSON insignificant whitespace.
pub open spec fn is_ws(c: char) -> bool {
    c == ' ' || c == '\t' || c == '\n' || c == '\r'
}

/// Index of the first non-whitespace character at or after `i`.
pub open spec fn skip_ws(s: Seq<char>, i: int) -> int
    decreases s.len() - i
        when 0 <= i <= s.len()
{
    if i < s.len() && is_ws(s[i]) {
        skip_ws(s, i + 1)
    } else {
        i
    }
}

/// The decoded value of a single-character escape, if it is one.
pub open spec fn esc_short(c: char) -> Option<char> {
    if c == '"' {
        Some('"')
    } else if c == '\\' {
        Some('\\')
    } else if c == '/' {
        Some('/')
    } else if c == 'b' {
        Some('\u{8}')
    } else if c == 'f' {
        Some('\u{c}')
    } else if c == 'n' {
        Some('\n')
    } else if c == 'r' {
        Some('\r')
    } else if c == 't' {
        Some('\t')
    } else {
        None
    }
}

/// The value of a hexadecimal digit, either case, or a negative
/// marker for any other character.
pub open spec fn hex_val(c: char) -> int {
    if '0' <= c && c <= '9' {
        (c as u32) as int - 48
    } else if 'a' <= c && c <= 'f' {
        (c as u32) as int - 87
    } else if 'A' <= c && c <= 'F' {
        (c as u32) as int - 55
    } else {
        -1
    }
}

/// The value of four hexadecimal digits at `i`, or a negative marker
/// when they are not there.
pub open spec fn hex4(s: Seq<char>, i: int) -> int {
    if 0 <= i && i + 4 <= s.len() {
        if hex_val(s[i]) >= 0 && hex_val(s[i + 1]) >= 0 && hex_val(s[i + 2]) >= 0 && hex_val(
            s[i + 3],
        ) >= 0 {
            hex_val(s[i]) * 4096 + hex_val(s[i + 1]) * 256 + hex_val(s[i + 2]) * 16 + hex_val(
                s[i + 3],
            )
        } else {
            -1
        }
    } else {
        -1
    }
}

/// Parses the remainder of a string literal, after the opening quote:
/// the decoded contents and the index just past the closing quote.
/// `\uXXXX` escapes are decoded, a surrogate pair as one character
/// and a lone surrogate as a failure.
pub open spec fn parse_text_rest(s: Seq<char>, i: int) -> Option<(Seq<char>, int)>
    decreases s.len() - i
        when 0 <= i <= s.len()
{
    if i >= s.len() {
        None
    } else if s[i] == '"' {
        Some((Seq::empty(), i + 1))
    } else if s[i] == '\\' {
        if i + 1 < s.len() {
            if s[i + 1] == 'u' {
                let v = hex4(s, i + 2);
                if v < 0 {
                    None
                } else if 0xD800 <= v < 0xDC00 {
                    if i + 8 <= s.len() && s[i + 6] == '\\' && s[i + 7] == 'u' {
                        let w = hex4(s, i + 8);
                        if 0xDC00 <= w < 0xE000 {
                            let cp = 0x10000 + (v - 0xD800) * 0x400 + (w - 0xDC00);
                            match parse_text_rest(s, i + 12) {
                                Some((t, j)) => Some((seq![(cp as u32) as char] + t, j)),
                                None => None,
                            }
                        } else {
                            None
                        }
                    } else {
                        None
                    }
                } else if 0xDC00 <= v < 0xE000 {
                    None
                } else {
                    match parse_text_rest(s, i + 6) {
                        Some((t, j)) => Some((seq![(v as u32) as char] + t, j)),
                        None => None,
                    }
                }
            } else {
                match esc_short(s[i + 1]) {
                    Some(c) => match parse_text_rest(s, i + 2) {
                        Some((t, j)) => Some((seq![c] + t, j)),
                        None => None,
                    },
                    None => None,
                }
            }
        } else {
            None
        }
    } else if (s[i] as u32) < 0x20 {
        None
    } else {
        match parse_text_rest(s, i + 1) {
            Some((t, j)) => Some((seq![s[i]] + t, j)),
            None => None,
        }
    }
}

/// Parses a whole string literal starting at `i`.
pub open spec fn parse_text(s: Seq<char>, i: int) -> Option<(Seq<char>, int)> {
    if 0 <= i < s.len() && s[i] == '"' {
        parse_text_rest(s, i + 1)
    } else {
        None
    }
}

/// A decimal digit.
pub open spec fn is_digit(c: char) -> bool {
    '0' <= c && c <= '9'
}

/// End of the maximal run of digits starting at `i`.
pub open spec fn digits_end(s: Seq<char>, i: int) -> int
    decreases s.len() - i
        when 0 <= i <= s.len()
{
    if i < s.len() && is_digit(s[i]) {
        digits_end(s, i + 1)
    } else {
        i
    }
}

pub proof fn lemma_digits_end_bounds(s: Seq<char>, i: int)
    requires
        0 <= i <= s.len(),
    ensures
        i <= digits_end(s, i) <= s.len(),
    decreases s.len() - i,
{
    if i < s.len() && is_digit(s[i]) {
        lemma_digits_end_bounds(s, i + 1);
    }
}

/// End of the optional fraction part at `j`: a dot must be followed
/// by at least one digit.
pub open spec fn frac_end(s: Seq<char>, j: int) -> Option<int> {
    if 0 <= j < s.len() && s[j] == '.' {
        if j + 1 < s.len() && is_digit(s[j + 1]) {
            Some(digits_end(s, j + 1))
        } else {
            None
        }
    } else {
        Some(j)
    }
}

/// End of the optional exponent part at `j`: `e`/`E`, an optional
/// sign, then at least one digit.
pub open spec fn exp_end(s: Seq<char>, j: int) -> Option<int> {
    if 0 <= j < s.len() && (s[j] == 'e' || s[j] == 'E') {
        let k = if j + 1 < s.len() && (s[j + 1] == '+' || s[j + 1] == '-') {
            j + 2
        } else {
            j + 1
        };
        if 0 <= k < s.len() && is_digit(s[k]) {
            Some(digits_end(s, k))
        } else {
            None
        }
    } else {
        Some(j)
    }
}

/// End of a number lexeme per the JSON grammar: an optional minus,
/// an integer part without leading zeros, then optional fraction and
/// exponent parts.
pub open spec fn number_end(s: Seq<char>, i: int) -> Option<int> {
    let j0 = if 0 <= i < s.len() && s[i] == '-' {
        i + 1
    } else {
        i
    };
    if 0 <= j0 < s.len() && is_digit(s[j0]) {
        let j1 = if s[j0] == '0' {
            j0 + 1
        } else {
            digits_end(s, j0)
        };
        if 0 <= j1 <= s.len() {
            match frac_end(s, j1) {
                None => None,
                Some(j2) => {
                    if 0 <= j2 <= s.len() {
                        exp_end(s, j2)
                    } else {
                        None
                    }
                },
            }
        } else {
            None
        }
    } else {
        None
    }
}

/// End of one JSON value starting at `i`, validating its syntax but
/// keeping no decoded form; used for members of shapes the protocol
/// does not interpret.
pub open spec fn skip_value(s: Seq<char>, i: int) -> Option<int>
    decreases s.len() - i, 1int
        when 0 <= i <= s.len()
{
    if i >= s.len() {
        None
    } else if s[i] == '"' {
        match parse_text(s, i) {
            Some((t, j)) => Some(j),
            None => None,
        }
    } else if s[i] == 'n' {
        if i + 4 <= s.len() && s[i + 1] == 'u' && s[i + 2] == 'l' && s[i + 3] == 'l' {
            Some(i + 4)
        } else {
            None
        }
    } else if s[i] == 't' {
        if i + 4 <= s.len() && s[i + 1] == 'r' && s[i + 2] == 'u' && s[i + 3] == 'e' {
            Some(i + 4)
        } else {
            None
        }
    } else if s[i] == 'f' {
        if i + 5 <= s.len() && s[i + 1] == 'a' && s[i + 2] == 'l' && s[i + 3] == 's' && s[i + 4]
            == 'e' {
            Some(i + 5)
        } else {
            None
        }
    } else if s[i] == '-' || is_digit(s[i]) {
        number_end(s, i)
    } else if s[i] == '{' {
        let j = skip_ws(s, i + 1);
        if i < j <= s.len() {
            if j < s.len() && s[j] == '}' {
                Some(j + 1)
            } else {
                skip_members(s, j)
            }
        } else {
            None
        }
    } else if s[i] == '[' {
        let j = skip_ws(s, i + 1);
        if i < j <= s.len() {
            if j < s.len() && s[j] == ']' {
                Some(j + 1)
            } else {
                skip_elements(s, j)
            }
        } else {
            None
        }
    } else {
        None
    }
}

/// Skips a non-empty member list of a nested object, consuming the
/// closing brace.
pub open spec fn skip_members(s: Seq<char>, i: int) -> Option<int>
    decreases s.len() - i, 2int
        when 0 <= i <= s.len()
{
    match parse_text(s, i) {
        None => None,
        Some((k, j)) => {
            let j2 = skip_ws(s, j);
            if 0 <= j2 < s.len() && s[j2] == ':' {
                let j3 = skip_ws(s, j2 + 1);
                if i < j3 <= s.len() {
                    match skip_value(s, j3) {
                        None => None,
                        Some(m) => {
                            if 0 <= m <= s.len() {
                                let m2 = skip_ws(s, m);
                                if 0 <= m2 < s.len() && s[m2] == ',' {
                                    let m3 = skip_ws(s, m2 + 1);
                                    if i < m3 <= s.len() {
                                        skip_members(s, m3)
                                    } else {
                                        None
                                    }
                                } else if 0 <= m2 < s.len() && s[m2] == '}' {
                                    Some(m2 + 1)
                                } else {
                                    None
                                }
                            } else {
                                None
                            }
                        },
                    }
                } else {
                    None
                }
            } else {
                None
            }
        },
    }
}

/// Skips a non-empty element list of a nested array, consuming the
/// closing bracket.
pub open spec fn skip_elements(s: Seq<char>, i: int) -> Option<int>
    decreases s.len() - i, 2int
        when 0 <= i <= s.len()
{
    match skip_value(s, i) {
        None => None,
        Some(m) => {
            if 0 <= m <= s.len() {
                let m2 = skip_ws(s, m);
                if 0 <= m2 < s.len() && s[m2] == ',' {
                    let m3 = skip_ws(s, m2 + 1);
                    if i < m3 <= s.len() {
                        skip_elements(s, m3)
                    } else {
                        None
                    }
                } else if 0 <= m2 < s.len() && s[m2] == ']' {
                    Some(m2 + 1)
                } else {
                    None
                }
            } else {
                None
            }
        },
    }
}

/// Parses one member value starting exactly at `i`.
pub open spec fn parse_item(s: Seq<char>, i: int) -> Option<(JsonItem, int)>
    decreases s.len() - i, 3int
        when 0 <= i <= s.len()
{
    if i < 0 || i >= s.len() {
        None
    } else if s[i] == '"' {
        match parse_text(s, i) {
            Some((t, j)) => Some((JsonItem::Text(t), j)),
            None => None,
        }
    } else if s[i] == 'n' {
        if i + 4 <= s.len() && s[i + 1] == 'u' && s[i + 2] == 'l' && s[i + 3] == 'l' {
            Some((JsonItem::Null, i + 4))
        } else {
            None
        }
    } else if s[i] == 't' {
        if i + 4 <= s.len() && s[i + 1] == 'r' && s[i + 2] == 'u' && s[i + 3] == 'e' {
            Some((JsonItem::Truth(true), i + 4))
        } else {
            None
        }
    } else if s[i] == 'f' {
        if i + 5 <= s.len() && s[i + 1] == 'a' && s[i + 2] == 'l' && s[i + 3] == 's' && s[i + 4]
            == 'e' {
            Some((JsonItem::Truth(false), i + 5))
        } else {
            None
        }
    } else if s[i] == '-' || is_digit(s[i]) {
        match number_end(s, i) {
            None => None,
            Some(e) => {
                if i < e <= s.len() {
                    Some((JsonItem::Num(s.subrange(i, e)), e))
                } else {
                    None
                }
            },
        }
    } else if s[i] == '{' || s[i] == '[' {
        match skip_value(s, i) {
            None => None,
            Some(e) => {
                if i < e <= s.len() {
                    Some((JsonItem::Composite(s.subrange(i, e)), e))
                } else {
                    None
                }
            },
        }
    } else {
        None
    }
}

/// Parses a non-empty member list `"k": v (, "k": v)* }` starting at
/// the first key, consuming the closing brace.
pub open spec fn parse_fields(s: Seq<char>, i: int) -> Option<(Seq<(Seq<char>, JsonItem)>, int)>
    decreases s.len() - i, 4int
        when 0 <= i <= s.len()
{
    match parse_text(s, i) {
        None => None,
        Some((k, j)) => {
            let j2 = skip_ws(s, j);
            if 0 <= j2 < s.len() && s[j2] == ':' {
                let j3 = skip_ws(s, j2 + 1);
                if !(i <= j3 <= s.len()) {
                    None
                } else {
                    match parse_item(s, j3) {
                    None => None,
                    Some((v, m)) => {
                        let m2 = skip_ws(s, m);
                        if 0 <= m2 < s.len() && s[m2] == ',' {
                            let m3 = skip_ws(s, m2 + 1);
                            if i < m3 <= s.len() {
                                match parse_fields(s, m3) {
                                    None => None,
                                    Some((rest, e)) => Some((seq![(k, v)] + rest, e)),
                                }
                            } else {
                                None
                            }
                        } else if 0 <= m2 < s.len() && s[m2] == '}' {
                            Some((seq![(k, v)], m2 + 1))
                        } else {
                            None
                        }
                    },
                    }
                }
            } else {
                None
            }
        },
    }
}

/// Parses a complete flat JSON object document: optional surrounding
/// whitespace, one object, nothing after it.
pub open spec fn parse_object(s: Seq<char>) -> Option<Seq<(Seq<char>, JsonItem)>> {
    let i = skip_ws(s, 0);
    if 0 <= i < s.len() && s[i] == '{' {
        let j = skip_ws(s, i + 1);
        if 0 <= j < s.len() && s[j] == '}' {
            if skip_ws(s, j + 1) == s.len() {
                Some(Seq::empty())
            } else {
                None
            }
        } else if 0 <= j <= s.len() {
            match parse_fields(s, j) {
                None => None,
                Some((fs, e)) => {
                    if 0 <= e <= s.len() && skip_ws(s, e) == s.len() {
                        Some(fs)
                    } else {
                        None
                    }
                },
            }
        } else {
            None
        }
    } else {
        None
    }
}

/// Collects the characters of a string into a vector, for random access.
pub fn chars_of(s: &str) -> (r: Vec<char>)
    ensures
        r@ == s@,
{
    let n = s.unicode_len();
    let mut v: Vec<char> = Vec::new();
    let mut i: usize = 0;
    while i < n
        invariant
            i <= n,
            n == s@.len(),
            v@ == s@.subrange(0, i as int),
        decreases n - i,
    {
        v.push(s.get_char(i));
        proof {
            assert(v@ =~= s@.subrange(0, i + 1 as int));
        }
        i += 1;
    }
    proof {
        assert(v@ =~= s@);
    }
    v
}

fn skip_ws_exec(v: &Vec<char>, i: usize) -> (r: usize)
    requires
        i <= v@.len(),
    ensures
        i <= r <= v@.len(),
        r as int == skip_ws(v@, i as int),
{
    let n = v.len();
    let mut k: usize = i;
    while k < n && (v[k] == ' ' || v[k] == '\t' || v[k] == '\n' || v[k] == '\r')
        invariant
            i <= k <= n,
            n == v@.len(),
            skip_ws(v@, i as int) == skip_ws(v@, k as int),
        decreases n - k,
    {
        proof {
            assert(skip_ws(v@, k as int) == skip_ws(v@, k as int + 1));
        }
        k = k + 1;
    }
    k
}

fn esc_short_exec(c: char) -> (r: Option<char>)
    ensures
        r == esc_short(c),
{
    if c == '"' {
        Some('"')
    } else if c == '\\' {
        Some('\\')
    } else if c == '/' {
        Some('/')
    } else if c == 'b' {
        Some('\u{8}')
    } else if c == 'f' {
        Some('\u{c}')
    } else if c == 'n' {
        Some('\n')
    } else if c == 'r' {
        Some('\r')
    } else if c == 't' {
        Some('\t')
    } else {
        None
    }
}

fn hex_val_exec(c: char) -> (r: i32)
    ensures
        r as int == hex_val(c),
        -1 <= r < 16,
{
    if '0' <= c && c <= '9' {
        (c as u32 as i32) - 48
    } else if 'a' <= c && c <= 'f' {
        (c as u32 as i32) - 87
    } else if 'A' <= c && c <= 'F' {
        (c as u32 as i32) - 55
    } else {
        -1
    }
}

fn hex4_exec(v: &Vec<char>, i: usize) -> (r: i32)
    requires
        i <= v@.len(),
    ensures
        r as int == hex4(v@, i as int),
        -1 <= r < 0x10000,
{
    let n = v.len();
    if n - i >= 4 {
        let h0 = hex_val_exec(v[i]);
        let h1 = hex_val_exec(v[i + 1]);
        let h2 = hex_val_exec(v[i + 2]);
        let h3 = hex_val_exec(v[i + 3]);
        if h0 >= 0 && h1 >= 0 && h2 >= 0 && h3 >= 0 {
            h0 * 4096 + h1 * 256 + h2 * 16 + h3
        } else {
            -1
        }
    } else {
        -1
    }
}

/// Relies on `char::from_u32`: `Some` exactly for Unicode scalar
/// values, giving the character with that value.
#[verifier::external_body]
fn char_from_u32(x: u32) -> (r: Option<char>)
    ensures
        r matches Some(c) ==> c == x as char,
        r is Some <==> (x < 0xD800 || (0xE000 <= x && x <= 0x10FFFF)),
{
    char::from_u32(x)
}

fn copy_range(v: &Vec<char>, i: usize, e: usize) -> (r: String)
    requires
        i <= e <= v@.len(),
    ensures
        r@ == v@.subrange(i as int, e as int),
{
    let mut out = String::new();
    proof {
        assert(out@ =~= v@.subrange(i as int, i as int));
    }
    let mut k: usize = i;
    while k < e
        invariant
            i <= k <= e <= v@.len(),
            out@ == v@.subrange(i as int, k as int),
        decreases e - k,
    {
        push_char(&mut out, v[k]);
        proof {
            assert(out@ =~= v@.subrange(i as int, k + 1 as int));
        }
        k = k + 1;
    }
    out
}

fn parse_text_rest_exec(v: &Vec<char>, i: usize) -> (r: Option<(String, usize)>)
    requires
        i <= v@.len(),
    ensures
        match r {
            Some(p) => parse_text_rest(v@, i as int) == Some((p.0@, p.1 as int)) && i < p.1
                <= v@.len(),
            None => parse_text_rest(v@, i as int) is None,
        },
    decreases v@.len() - i,
{
    let n = v.len();
    if i >= n {
        return None;
    }
    let c = v[i];
    if c == '"' {
        let out = String::new();
        proof {
            assert(out@ =~= Seq::<char>::empty());
        }
        return Some((out, i + 1));
    }
    if c == '\\' {
        if i + 1 < n {
            if v[i + 1] == 'u' {
                let hv = hex4_exec(v, i + 2);
                if hv < 0 {
                    None
                } else if 0xD800 <= hv && hv < 0xDC00 {
                    if n - i >= 8 && v[i + 6] == '\\' && v[i + 7] == 'u' {
                        let w = hex4_exec(v, i + 8);
                        if 0xDC00 <= w && w < 0xE000 {
                            let cpv: u32 = 0x10000 + ((hv - 0xD800) as u32) * 0x400 + ((w
                                - 0xDC00) as u32);
                            let ch = match char_from_u32(cpv) {
                                Some(ch) => ch,
                                None => {
                                    proof {
                                        assert(false);
                                    }
                                    return None;
                                },
                            };
                            proof {
                                assert(i + 12 <= n);
                            }
                            match parse_text_rest_exec(v, i + 12) {
                                Some(p) => {
                                    let mut out = String::new();
                                    push_char(&mut out, ch);
                                    out.append(p.0.as_str());
                                    proof {
                                        assert(out@ =~= seq![ch] + p.0@);
                                    }
                                    Some((out, p.1))
                                },
                                None => None,
                            }
                        } else {
                            None
                        }
                    } else {
                        None
                    }
                } else if 0xDC00 <= hv && hv < 0xE000 {
                    None
                } else {
                    let ch = match char_from_u32(hv as u32) {
                        Some(ch) => ch,
                        None => {
                            proof {
                                assert(false);
                            }
                            return None;
                        },
                    };
                    proof {
                        assert(i + 6 <= n);
                    }
                    match parse_text_rest_exec(v, i + 6) {
                        Some(p) => {
                            let mut out = String::new();
                            push_char(&mut out, ch);
                            out.append(p.0.as_str());
                            proof {
                                assert(out@ =~= seq![ch] + p.0@);
                            }
                            Some((out, p.1))
                        },
                        None => None,
                    }
                }
            } else {
                match esc_short_exec(v[i + 1]) {
                    Some(d) => match parse_text_rest_exec(v, i + 2) {
                        Some(p) => {
                            let mut out = String::new();
                            push_char(&mut out, d);
                            out.append(p.0.as_str());
                            proof {
                                assert(out@ =~= seq![d] + p.0@);
                            }
                            Some((out, p.1))
                        },
                        None => None,
                    },
                    None => None,
                }
            }
        } else {
            None
        }
    } else if (c as u32) < 0x20 {
        None
    } else {
        match parse_text_rest_exec(v, i + 1) {
            Some(p) => {
                let mut out = String::new();
                push_char(&mut out, c);
                out.append(p.0.as_str());
                proof {
                    assert(out@ =~= seq![c] + p.0@);
                }
                Some((out, p.1))
            },
            None => None,
        }
    }
}

fn parse_text_exec(v: &Vec<char>, i: usize) -> (r: Option<(String, usize)>)
    requires
        i <= v@.len(),
    ensures
        match r {
            Some(p) => parse_text(v@, i as int) == Some((p.0@, p.1 as int)) && i < p.1 <= v@.len(),
            None => parse_text(v@, i as int) is None,
        },
{
    if i < v.len() && v[i] == '"' {
        parse_text_rest_exec(v, i + 1)
    } else {
        None
    }
}

fn digits_end_exec(v: &Vec<char>, i: usize) -> (r: usize)
    requires
        i <= v@.len(),
    ensures
        i <= r <= v@.len(),
        r as int == digits_end(v@, i as int),
{
    let n = v.len();
    let mut k: usize = i;
    while k < n && ('0' <= v[k] && v[k] <= '9')
        invariant
            i <= k <= n,
            n == v@.len(),
            digits_end(v@, i as int) == digits_end(v@, k as int),
        decreases n - k,
    {
        proof {
            assert(digits_end(v@, k as int) == digits_end(v@, k as int + 1));
        }
        k = k + 1;
    }
    k
}

fn number_end_exec(v: &Vec<char>, i: usize) -> (r: Option<usize>)
    requires
        i <= v@.len(),
    ensures
        match r {
            Some(e) => number_end(v@, i as int) == Some(e as int) && i < e <= v@.len(),
            None => number_end(v@, i as int) is None,
        },
{
    let n = v.len();
    let j0 = if i < n && v[i] == '-' {
        i + 1
    } else {
        i
    };
    if !(j0 < n && ('0' <= v[j0] && v[j0] <= '9')) {
        return None;
    }
    let j1 = if v[j0] == '0' {
        j0 + 1
    } else {
        let d = digits_end_exec(v, j0);
        proof {
            assert(digits_end(v@, j0 as int) == digits_end(v@, j0 as int + 1));
            lemma_digits_end_bounds(v@, j0 as int + 1);
        }
        d
    };
    let j2 = if j1 < n && v[j1] == '.' {
        if j1 + 1 < n && ('0' <= v[j1 + 1] && v[j1 + 1] <= '9') {
            let d = digits_end_exec(v, j1 + 1);
            proof {
                assert(frac_end(v@, j1 as int) == Some(d as int));
            }
            d
        } else {
            proof {
                assert(frac_end(v@, j1 as int) is None);
            }
            return None;
        }
    } else {
        proof {
            assert(frac_end(v@, j1 as int) == Some(j1 as int));
        }
        j1
    };
    let j3 = if j2 < n && (v[j2] == 'e' || v[j2] == 'E') {
        let k = if j2 + 1 < n && (v[j2 + 1] == '+' || v[j2 + 1] == '-') {
            j2 + 2
        } else {
            j2 + 1
        };
        if k < n && ('0' <= v[k] && v[k] <= '9') {
            let d = digits_end_exec(v, k);
            proof {
                assert(exp_end(v@, j2 as int) == Some(d as int));
            }
            d
        } else {
            proof {
                assert(exp_end(v@, j2 as int) is None);
            }
            return None;
        }
    } else {
        proof {
            assert(exp_end(v@, j2 as int) == Some(j2 as int));
        }
        j2
    };
    Some(j3)
}

fn skip_value_exec(v: &Vec<char>, i: usize) -> (r: Option<usize>)
    requires
        i <= v@.len(),
    ensures
        match r {
            Some(e) => skip_value(v@, i as int) == Some(e as int) && i < e <= v@.len(),
            None => skip_value(v@, i as int) is None,
        },
    decreases v@.len() - i, 1int,
{
    let n = v.len();
    if i >= n {
        return None;
    }
    let c = v[i];
    if c == '"' {
        match parse_text_exec(v, i) {
            Some(p) => Some(p.1),
            None => None,
        }
    } else if c == 'n' {
        if n - i >= 4 && v[i + 1] == 'u' && v[i + 2] == 'l' && v[i + 3] == 'l' {
            Some(i + 4)
        } else {
            None
        }
    } else if c == 't' {
        if n - i >= 4 && v[i + 1] == 'r' && v[i + 2] == 'u' && v[i + 3] == 'e' {
            Some(i + 4)
        } else {
            None
        }
    } else if c == 'f' {
        if n - i >= 5 && v[i + 1] == 'a' && v[i + 2] == 'l' && v[i + 3] == 's' && v[i + 4] == 'e' {
            Some(i + 5)
        } else {
            None
        }
    } else if c == '-' || ('0' <= c && c <= '9') {
        number_end_exec(v, i)
    } else if c == '{' {
        let j = skip_ws_exec(v, i + 1);
        if j < n && v[j] == '}' {
            Some(j + 1)
        } else {
            skip_members_exec(v, j)
        }
    } else if c == '[' {
        let j = skip_ws_exec(v, i + 1);
        if j < n && v[j] == ']' {
            Some(j + 1)
        } else {
            skip_elements_exec(v, j)
        }
    } else {
        None
    }
}

fn skip_members_exec(v: &Vec<char>, i: usize) -> (r: Option<usize>)
    requires
        i <= v@.len(),
    ensures
        match r {
            Some(e) => skip_members(v@, i as int) == Some(e as int) && i < e <= v@.len(),
            None => skip_members(v@, i as int) is None,
        },
    decreases v@.len() - i, 2int,
{
    let key = match parse_text_exec(v, i) {
        Some(p) => p,
        None => {
            return None;
        },
    };
    let j2 = skip_ws_exec(v, key.1);
    if !(j2 < v.len() && v[j2] == ':') {
        return None;
    }
    let j3 = skip_ws_exec(v, j2 + 1);
    let m = match skip_value_exec(v, j3) {
        Some(m) => m,
        None => {
            return None;
        },
    };
    let m2 = skip_ws_exec(v, m);
    if m2 < v.len() && v[m2] == ',' {
        let m3 = skip_ws_exec(v, m2 + 1);
        if !(i < m3 && m3 <= v.len()) {
            return None;
        }
        skip_members_exec(v, m3)
    } else if m2 < v.len() && v[m2] == '}' {
        Some(m2 + 1)
    } else {
        None
    }
}

fn skip_elements_exec(v: &Vec<char>, i: usize) -> (r: Option<usize>)
    requires
        i <= v@.len(),
    ensures
        match r {
            Some(e) => skip_elements(v@, i as int) == Some(e as int) && i < e <= v@.len(),
            None => skip_elements(v@, i as int) is None,
        },
    decreases v@.len() - i, 2int,
{
    let m = match skip_value_exec(v, i) {
        Some(m) => m,
        None => {
            return None;
        },
    };
    let m2 = skip_ws_exec(v, m);
    if m2 < v.len() && v[m2] == ',' {
        let m3 = skip_ws_exec(v, m2 + 1);
        if !(i < m3 && m3 <= v.len()) {
            return None;
        }
        skip_elements_exec(v, m3)
    } else if m2 < v.len() && v[m2] == ']' {
        Some(m2 + 1)
    } else {
        None
    }
}

fn parse_item_exec(v: &Vec<char>, i: usize) -> (r: Option<(JsonScalar, usize)>)
    requires
        i <= v@.len(),
    ensures
        match r {
            Some(p) => parse_item(v@, i as int) == Some((p.0@, p.1 as int)) && i < p.1 <= v@.len(),
            None => parse_item(v@, i as int) is None,
        },
    decreases v@.len() - i, 3int,
{
    let n = v.len();
    if i >= n {
        return None;
    }
    let c = v[i];
    if c == '"' {
        match parse_text_exec(v, i) {
            Some(p) => Some((JsonScalar::Text(p.0), p.1)),
            None => None,
        }
    } else if c == 'n' {
        if n - i >= 4 && v[i + 1] == 'u' && v[i + 2] == 'l' && v[i + 3] == 'l' {
            Some((JsonScalar::Null, i + 4))
        } else {
            None
        }
    } else if c == 't' {
        if n - i >= 4 && v[i + 1] == 'r' && v[i + 2] == 'u' && v[i + 3] == 'e' {
            Some((JsonScalar::Truth(true), i + 4))
        } else {
            None
        }
    } else if c == 'f' {
        if n - i >= 5 && v[i + 1] == 'a' && v[i + 2] == 'l' && v[i + 3] == 's' && v[i + 4] == 'e' {
            Some((JsonScalar::Truth(false), i + 5))
        } else {
            None
        }
    } else if c == '-' || ('0' <= c && c <= '9') {
        match number_end_exec(v, i) {
            None => None,
            Some(e) => {
                let lex = copy_range(v, i, e);
                Some((JsonScalar::Num(lex), e))
            },
        }
    } else if c == '{' || c == '[' {
        match skip_value_exec(v, i) {
            None => None,
            Some(e) => {
                let raw = copy_range(v, i, e);
                Some((JsonScalar::Composite(raw), e))
            },
        }
    } else {
        None
    }
}

fn parse_fields_exec(v: &Vec<char>, i: usize) -> (r: Option<(Vec<(String, JsonScalar)>, usize)>)
    requires
        i <= v@.len(),
    ensures
        match r {
            Some(p) => parse_fields(v@, i as int) == Some((fields_view(p.0@), p.1 as int)) && i
                < p.1 <= v@.len(),
            None => parse_fields(v@, i as int) is None,
        },
    decreases v@.len() - i, 4int,
{
    let key = match parse_text_exec(v, i) {
        Some(p) => p,
        None => {
            return None;
        },
    };
    let j2 = skip_ws_exec(v, key.1);
    if !(j2 < v.len() && v[j2] == ':') {
        return None;
    }
    let j3 = skip_ws_exec(v, j2 + 1);
    let val = match parse_item_exec(v, j3) {
        Some(p) => p,
        None => {
            return None;
        },
    };
    let m2 = skip_ws_exec(v, val.1);
    if m2 < v.len() && v[m2] == ',' {
        let m3 = skip_ws_exec(v, m2 + 1);
        if !(i < m3 && m3 <= v.len()) {
            return None;
        }
        match parse_fields_exec(v, m3) {
            Some(mut p) => {
                let ghost tail = p.0@;
                let mut out: Vec<(String, JsonScalar)> = Vec::new();
                out.push((key.0, val.0));
                let ghost head = out@;
                out.append(&mut p.0);
                proof {
                    assert(out@ == head + tail);
                    assert(fields_view(out@) =~= seq![(head[0].0@, head[0].1@)] + fields_view(
                        tail,
                    ));
                }
                Some((out, p.1))
            },
            None => None,
        }
    } else if m2 < v.len() && v[m2] == '}' {
        let mut out: Vec<(String, JsonScalar)> = Vec::new();
        out.push((key.0, val.0));
        proof {
            assert(fields_view(out@) =~= seq![(out@[0].0@, out@[0].1@)]);
        }
        Some((out, m2 + 1))
    } else {
        None
    }
}

/// Parses a complete flat JSON object document into its member list.
pub fn parse_object_exec(v: &Vec<char>) -> (r: Option<Vec<(String, JsonScalar)>>)
    ensures
        match r {
            Some(fs) => parse_object(v@) == Some(fields_view(fs@)),
            None => parse_object(v@) is None,
        },
{
    let i = skip_ws_exec(v, 0);
    if !(i < v.len() && v[i] == '{') {
        return None;
    }
    let j = skip_ws_exec(v, i + 1);
    if j < v.len() && v[j] == '}' {
        let e = skip_ws_exec(v, j + 1);
        if e == v.len() {
            let out: Vec<(String, JsonScalar)> = Vec::new();
            proof {
                assert(fields_view(out@) =~= Seq::<(Seq<char>, JsonItem)>::empty());
            }
            Some(out)
        } else {
            None
        }
    } else {
        match parse_fields_exec(v, j) {
            Some(p) => {
                let e2 = skip_ws_exec(v, p.1);
                if e2 == v.len() {
                    Some(p.0)
                } else {
                    None
                }
            },
            None => None,
        }
    }
}

/// First value bound to `key`, if the object has one. On the
/// pathological case of a key bound twice the first binding wins;
/// nothing in the protocol's schemas depends on the choice.
pub open spec fn field_of(fs: Seq<(Seq<char>, JsonItem)>, key: Seq<char>) -> Option<JsonItem>
    decreases fs.len(),
{
    if fs.len() == 0 {
        None
    } else if fs[0].0 == key {
        Some(fs[0].1)
    } else {
        field_of(fs.drop_first(), key)
    }
}

/// Index of the first member named `key`, with the same choice of
/// member as [`field_of`].
pub fn field_index(fs: &Vec<(String, JsonScalar)>, key: &str) -> (r: Option<usize>)
    ensures
        match r {
            Some(ix) => ix < fs@.len() && fs@[ix as int].0@ == key@ && field_of(
                fields_view(fs@),
                key@,
            ) == Some(fs@[ix as int].1@),
            None => field_of(fields_view(fs@), key@) is None,
        },
{
    let n = fs.len();
    proof {
        assert(fields_view(fs@).skip(0) =~= fields_view(fs@));
    }
    let mut i: usize = 0;
    while i < n
        invariant
            i <= n,
            n == fs@.len(),
            field_of(fields_view(fs@), key@) == field_of(
                fields_view(fs@).skip(i as int),
                key@,
            ),
        decreases n - i,
    {
        if crate::text::str_eq(fs[i].0.as_str(), key) {
            proof {
                assert(fields_view(fs@).skip(i as int)[0] == (fs@[i as int].0@, fs@[i as int].1@));
            }
            return Some(i);
        }
        proof {
            assert(fields_view(fs@).skip(i as int).drop_first() =~= fields_view(fs@).skip(
                i as int + 1,
            ));
            assert(fields_view(fs@).skip(i as int)[0] == (fs@[i as int].0@, fs@[i as int].1@));
        }
        i += 1;
    }
    proof {
        assert(fields_view(fs@).skip(n as int) =~= Seq::<(Seq<char>, JsonItem)>::empty());
    }
    None
}

/// The JSON escape sequence (or the character itself) used when
/// writing `c` inside a string literal.
pub open spec fn esc_of(c: char) -> Seq<char> {
    if c == '"' {
        seq!['\\', '"']
    } else if c == '\\' {
        seq!['\\', '\\']
    } else if c == '\n' {
        seq!['\\', 'n']
    } else if c == '\r' {
        seq!['\\', 'r']
    } else if c == '\t' {
        seq!['\\', 't']
    } else if c == '\u{8}' {
        seq!['\\', 'b']
    } else if c == '\u{c}' {
        seq!['\\', 'f']
    } else if (c as u32) < 0x20 {
        seq!['\\', 'u', '0', '0', hex_digit_of((c as u32) as int / 16), hex_digit_of(
            (c as u32) as int % 16,
        )]
    } else {
        seq![c]
    }
}

/// The lower-case hexadecimal digit for a value below sixteen.
pub open spec fn hex_digit_of(d: int) -> char {
    if d == 0 {
        '0'
    } else if d == 1 {
        '1'
    } else if d == 2 {
        '2'
    } else if d == 3 {
        '3'
    } else if d == 4 {
        '4'
    } else if d == 5 {
        '5'
    } else if d == 6 {
        '6'
    } else if d == 7 {
        '7'
    } else if d == 8 {
        '8'
    } else if d == 9 {
        '9'
    } else if d == 10 {
        'a'
    } else if d == 11 {
        'b'
    } else if d == 12 {
        'c'
    } else if d == 13 {
        'd'
    } else if d == 14 {
        'e'
    } else {
        'f'
    }
}

/// The escaped form of a whole string contents.
pub open spec fn escaped(v: Seq<char>) -> Seq<char>
    decreases v.len(),
{
    if v.len() == 0 {
        Seq::empty()
    } else {
        esc_of(v[0]) + escaped(v.drop_first())
    }
}

/// A JSON string literal: quotes around the escaped contents.
pub open spec fn quoted(v: Seq<char>) -> Seq<char> {
    seq!['"'] + (escaped(v) + seq!['"'])
}

pub proof fn lemma_escaped_snoc(v: Seq<char>, c: char)
    ensures
        escaped(v.push(c)) == escaped(v) + esc_of(c),
    decreases v.len(),
{
    if v.len() == 0 {
        let w = v.push(c);
        assert(w[0] == c);
        assert(w.drop_first() =~= Seq::<char>::empty());
        assert(escaped(w) == esc_of(c) + escaped(Seq::<char>::empty()));
        assert(escaped(Seq::<char>::empty()) == Seq::<char>::empty());
        assert(esc_of(c) + Seq::<char>::empty() =~= esc_of(c));
        assert(escaped(v) == Seq::<char>::empty());
        assert(Seq::<char>::empty() + esc_of(c) =~= esc_of(c));
        assert(escaped(w) == escaped(v) + esc_of(c));
    } else {
        assert(v.push(c)[0] == v[0]);
        assert(v.push(c).drop_first() =~= v.drop_first().push(c));
        lemma_escaped_snoc(v.drop_first(), c);
        assert(escaped(v.push(c)) == esc_of(v[0]) + escaped(v.drop_first().push(c)));
        assert(escaped(v.drop_first().push(c)) == escaped(v.drop_first()) + esc_of(c));
        assert(esc_of(v[0]) + (escaped(v.drop_first()) + esc_of(c)) =~= (esc_of(v[0]) + escaped(
            v.drop_first(),
        )) + esc_of(c));
        assert(escaped(v) == esc_of(v[0]) + escaped(v.drop_first()));
        assert(escaped(v.push(c)) == escaped(v) + esc_of(c));
    }
}

/// The serialised text of one scalar value.
pub open spec fn item_text(x: JsonItem) -> Seq<char> {
    match x {
        JsonItem::Null => seq!['n', 'u', 'l', 'l'],
        JsonItem::Truth(b) => if b {
            seq!['t', 'r', 'u', 'e']
        } else {
            seq!['f', 'a', 'l', 's', 'e']
        },
        JsonItem::Num(l) => l,
        JsonItem::Text(t) => quoted(t),
        JsonItem::Composite(r) => r,
    }
}

fn append_esc(out: &mut String, c: char)
    ensures
        final(out)@ == old(out)@ + esc_of(c),
{
    if c == '"' {
        out.append("\\\"");
        proof {
            reveal_strlit("\\\"");
            assert(final(out)@ =~= old(out)@ + esc_of(c));
        }
    } else if c == '\\' {
        out.append("\\\\");
        proof {
            reveal_strlit("\\\\");
            assert(final(out)@ =~= old(out)@ + esc_of(c));
        }
    } else if c == '\n' {
        out.append("\\n");
        proof {
            reveal_strlit("\\n");
            assert(final(out)@ =~= old(out)@ + esc_of(c));
        }
    } else if c == '\r' {
        out.append("\\r");
        proof {
            reveal_strlit("\\r");
            assert(final(out)@ =~= old(out)@ + esc_of(c));
        }
    } else if c == '\t' {
        out.append("\\t");
        proof {
            reveal_strlit("\\t");
            assert(final(out)@ =~= old(out)@ + esc_of(c));
        }
    } else if c == '\u{8}' {
        out.append("\\b");
        proof {
            reveal_strlit("\\b");
            assert(final(out)@ =~= old(out)@ + esc_of(c));
        }
    } else if c == '\u{c}' {
        out.append("\\f");
        proof {
            reveal_strlit("\\f");
            assert(final(out)@ =~= old(out)@ + esc_of(c));
        }
    } else if (c as u32) < 0x20 {
        out.append("\\u00");
        let x: u32 = c as u32;
        push_char(out, hex_digit_char(x / 16));
        push_char(out, hex_digit_char(x % 16));
        proof {
            reveal_strlit("\\u00");
            assert(final(out)@ =~= old(out)@ + esc_of(c));
        }
    } else {
        push_char(out, c);
        proof {
            assert(final(out)@ =~= old(out)@ + esc_of(c));
        }
    }
}

fn hex_digit_char(d: u32) -> (r: char)
    requires
        d < 16,
    ensures
        r == hex_digit_of(d as int),
{
    if d == 0 {
        '0'
    } else if d == 1 {
        '1'
    } else if d == 2 {
        '2'
    } else if d == 3 {
        '3'
    } else if d == 4 {
        '4'
    } else if d == 5 {
        '5'
    } else if d == 6 {
        '6'
    } else if d == 7 {
        '7'
    } else if d == 8 {
        '8'
    } else if d == 9 {
        '9'
    } else if d == 10 {
        'a'
    } else if d == 11 {
        'b'
    } else if d == 12 {
        'c'
    } else if d == 13 {
        'd'
    } else if d == 14 {
        'e'
    } else {
        'f'
    }
}

/// Writes `v` as a JSON string literal.
pub fn quoted_string(v: &str) -> (r: String)
    ensures
        r@ == quoted(v@),
{
    let mut out = String::new();
    push_char(&mut out, '"');
    let n = v.unicode_len();
    let mut i: usize = 0;
    while i < n
        invariant
            i <= n,
            n == v@.len(),
            out@ == seq!['"'] + escaped(v@.subrange(0, i as int)),
        decreases n - i,
    {
        let c = v.get_char(i);
        append_esc(&mut out, c);
        proof {
            assert(v@.subrange(0, i as int).push(c) =~= v@.subrange(0, i + 1 as int));
            lemma_escaped_snoc(v@.subrange(0, i as int), c);
            assert(out@ =~= seq!['"'] + escaped(v@.subrange(0, i + 1 as int)));
        }
        i += 1;
    }
    push_char(&mut out, '"');
    proof {
        assert(v@.subrange(0, n as int) =~= v@);
        assert(out@ =~= quoted(v@));
    }
    out
}

/// Text that the escaper writes unchanged, with no character below
/// the control boundary.
pub open spec fn literal_key(t: Seq<char>) -> bool {
    forall|i: int|
        0 <= i < t.len() ==> (esc_of(#[trigger] t[i]) == seq![t[i]] && (t[i] as u32) >= 0x20)
}

pub proof fn lemma_escaped_plain(t: Seq<char>)
    requires
        literal_key(t),
    ensures
        escaped(t) == t,
    decreases t.len(),
{
    if t.len() == 0 {
        assert(escaped(t) =~= t);
    } else {
        lemma_escaped_plain(t.drop_first());
        assert(escaped(t) == esc_of(t[0]) + escaped(t.drop_first()));
        assert(esc_of(t[0]) == seq![t[0]]);
        assert(escaped(t) =~= t);
    }
}

/// A subrange of a subrange, shifted back into the larger sequence.
pub proof fn lemma_subrange_shift(s: Seq<char>, whole: Seq<char>, i: int, a: int, b: int)
    requires
        0 <= i,
        i + whole.len() <= s.len(),
        s.subrange(i, i + whole.len()) == whole,
        0 <= a <= b <= whole.len(),
    ensures
        s.subrange(i + a, i + b) == whole.subrange(a, b),
{
    assert(s.subrange(i + a, i + b) =~= whole.subrange(a, b)) by {
        assert(forall|x: int|
            0 <= x < b - a ==> #[trigger] s.subrange(i + a, i + b)[x] == s.subrange(
                i,
                i + whole.len(),
            )[a + x]);
    }
}

/// Splits knowledge of a concatenated block at `i` into knowledge of
/// its two halves.
pub proof fn lemma_block_at(s: Seq<char>, whole: Seq<char>, head: Seq<char>, tail: Seq<char>, i: int)
    requires
        whole == head + tail,
        0 <= i,
        i + whole.len() <= s.len(),
        s.subrange(i, i + whole.len() as int) == whole,
    ensures
        s.subrange(i, i + head.len() as int) == head,
        s.subrange(i + head.len(), i + whole.len() as int) == tail,
{
    lemma_subrange_shift(s, whole, i, 0, head.len() as int);
    assert(whole.subrange(0, head.len() as int) =~= head) by {
        assert forall|x: int| 0 <= x < head.len() implies whole.subrange(0, head.len() as int)[x]
            == head[x] by {
            assert(whole.subrange(0, head.len() as int)[x] == whole[x]);
            assert((head + tail)[x] == head[x]);
        }
    }
    lemma_subrange_shift(s, whole, i, head.len() as int, whole.len() as int);
    assert(whole.subrange(head.len() as int, whole.len() as int) =~= tail) by {
        assert forall|x: int|
            0 <= x < tail.len() implies whole.subrange(head.len() as int, whole.len() as int)[x]
            == tail[x] by {
            assert(whole.subrange(head.len() as int, whole.len() as int)[x] == whole[head.len()
                + x]);
            assert((head + tail)[head.len() + x] == tail[x]);
        }
    }
}

/// The one character of a single-character block.
pub proof fn lemma_char_at(s: Seq<char>, c: char, i: int)
    requires
        0 <= i,
        i + 1 <= s.len(),
        s.subrange(i, i + 1) == seq![c],
    ensures
        s[i] == c,
{
    assert(s.subrange(i, i + 1)[0] == s[i]);
}

/// Parsing inverts escaping: after the escaped text a closing quote
/// follows, and the parser recovers exactly the original text.
pub proof fn lemma_parse_escaped(t: Seq<char>, s: Seq<char>, i: int)
    requires
        0 <= i,
        i + escaped(t).len() + 1 <= s.len(),
        s.subrange(i, i + escaped(t).len()) == escaped(t),
        s[i + escaped(t).len()] == '"',
    ensures
        parse_text_rest(s, i) == Some((t, i + escaped(t).len() + 1)),
    decreases t.len(),
{
    if t.len() == 0 {
        assert(escaped(t).len() == 0);
        assert(s[i] == '"');
        assert(t =~= Seq::<char>::empty());
    } else {
        let c = t[0];
        let e0 = esc_of(c);
        let rest = t.drop_first();
        assert(escaped(t) == e0 + escaped(rest));
        let i2 = i + e0.len();
        lemma_block_at(s, escaped(t), e0, escaped(rest), i);
        assert(s[i2 + escaped(rest).len()] == '"');
        lemma_parse_escaped(rest, s, i2);
        if e0.len() == 1 {
            assert(e0 =~= seq![c]);
            lemma_char_at(s, c, i);
            assert(c != '"' && c != '\\');
            assert((c as u32) >= 0x20);
            assert(parse_text_rest(s, i) == Some((seq![c] + rest, i + escaped(t).len() + 1)));
            assert(seq![c] + rest =~= t);
        } else if e0.len() == 2 {
            assert(e0[0] == '\\');
            assert(e0 =~= seq!['\\'] + seq![e0[1]]);
            lemma_block_at(s, e0, seq!['\\'], seq![e0[1]], i);
            lemma_char_at(s, '\\', i);
            lemma_char_at(s, e0[1], i + 1);
            assert(e0[1] != 'u');
            assert(esc_short(e0[1]) == Some(c));
            assert(parse_text_rest(s, i) == Some((seq![c] + rest, i + escaped(t).len() + 1)));
            assert(seq![c] + rest =~= t);
        } else {
            let cv = (c as u32) as int;
            assert(cv < 0x20 && e0.len() == 6);
            let hi = hex_digit_of(cv / 16);
            let lo = hex_digit_of(cv % 16);
            vstd::utf8::char_u32_cast(c, c as u32);
            assert(e0 == seq!['\\', 'u', '0', '0', hi, lo]);
            assert(s.subrange(i, i + 6)[0] == s[i]);
            assert(s.subrange(i, i + 6)[1] == s[i + 1]);
            assert(s.subrange(i, i + 6)[2] == s[i + 2]);
            assert(s.subrange(i, i + 6)[3] == s[i + 3]);
            assert(s.subrange(i, i + 6)[4] == s[i + 4]);
            assert(s.subrange(i, i + 6)[5] == s[i + 5]);
            assert(s[i] == '\\' && s[i + 1] == 'u' && s[i + 2] == '0' && s[i + 3] == '0' && s[i
                + 4] == hi && s[i + 5] == lo);
            assert(hex_val('0') == 0);
            assert(hex_val(hi) == cv / 16);
            assert(hex_val(lo) == cv % 16);
            assert(hex4(s, i + 2) == (cv / 16) * 16 + cv % 16);
            assert(hex4(s, i + 2) == cv);
            assert((cv as u32) == (c as u32));
            assert(((cv as u32) as char) == c);
            assert(parse_text_rest(s, i) == Some((seq![c] + rest, i + escaped(t).len() + 1)));
            assert(seq![c] + rest =~= t);
        }
    }
}

/// Parsing inverts quoting.
pub proof fn lemma_parse_text_at(t: Seq<char>, s: Seq<char>, i: int)
    requires
        0 <= i,
        i + quoted(t).len() <= s.len(),
        s.subrange(i, i + quoted(t).len()) == quoted(t),
    ensures
        parse_text(s, i) == Some((t, i + quoted(t).len())),
{
    let q = quoted(t);
    assert(q == seq!['"'] + (escaped(t) + seq!['"']));
    lemma_block_at(s, q, seq!['"'], escaped(t) + seq!['"'], i);
    lemma_char_at(s, '"', i);
    lemma_block_at(s, escaped(t) + seq!['"'], escaped(t), seq!['"'], i + 1);
    lemma_char_at(s, '"', i + 1 + escaped(t).len());
    lemma_parse_escaped(t, s, i + 1);
}

/// Parsing a written string member value.
pub proof fn lemma_parse_item_text(t: Seq<char>, s: Seq<char>, i: int)
    requires
        0 <= i,
        i + quoted(t).len() <= s.len(),
        s.subrange(i, i + quoted(t).len()) == quoted(t),
    ensures
        parse_item(s, i) == Some((JsonItem::Text(t), i + quoted(t).len())),
{
    lemma_parse_text_at(t, s, i);
    assert(parse_text(s, i) is Some);
    assert(s[i] == '"');
}

/// Parsing a written `null` member value.
pub proof fn lemma_parse_item_null(s: Seq<char>, i: int)
    requires
        0 <= i,
        i + 4 <= s.len(),
        s.subrange(i, i + 4) == seq!['n', 'u', 'l', 'l'],
    ensures
        parse_item(s, i) == Some((JsonItem::Null, i + 4)),
{
    assert(s.subrange(i, i + 4)[0] == s[i]);
    assert(s.subrange(i, i + 4)[1] == s[i + 1]);
    assert(s.subrange(i, i + 4)[2] == s[i + 2]);
    assert(s.subrange(i, i + 4)[3] == s[i + 3]);
    assert(s[i] == 'n' && s[i + 1] == 'u' && s[i + 2] == 'l' && s[i + 3] == 'l');
}

/// A member value the canonical writer emits: a string or `null`.
pub open spec fn wf_member_item(x: JsonItem) -> bool {
    match x {
        JsonItem::Null => true,
        JsonItem::Text(t) => true,
        _ => false,
    }
}

/// A member list the canonical writer can emit and the parser must
/// invert: plain keys, string-or-null values.
pub open spec fn wf_members(fs: Seq<(Seq<char>, JsonItem)>) -> bool {
    forall|k: int|
        0 <= k < fs.len() ==> (literal_key(#[trigger] fs[k].0) && wf_member_item(fs[k].1))
}

/// The canonical text of a non-empty member list, including the
/// closing brace.
pub open spec fn members_text(fs: Seq<(Seq<char>, JsonItem)>) -> Seq<char>
    decreases fs.len(),
{
    if fs.len() == 0 {
        seq!['}']
    } else {
        quoted(fs[0].0) + (seq![':'] + (item_text(fs[0].1) + (if fs.len() == 1 {
            seq!['}']
        } else {
            seq![','] + members_text(fs.drop_first())
        })))
    }
}

/// The canonical text of a whole object.
pub open spec fn object_text(fs: Seq<(Seq<char>, JsonItem)>) -> Seq<char> {
    seq!['{'] + members_text(fs)
}

/// The length of a written member value is positive, and its first
/// character opens a string or a literal.
pub proof fn lemma_item_text_head(x: JsonItem)
    requires
        wf_member_item(x),
    ensures
        item_text(x).len() >= 1,
        !is_ws(item_text(x)[0]),
{
    match x {
        JsonItem::Null => {
            assert(item_text(x)[0] == 'n');
        },
        JsonItem::Text(t) => {
            assert(item_text(x)[0] == '"');
        },
        _ => {},
    }
}

/// Parsing inverts the canonical writing of a non-empty member list.
pub proof fn lemma_parse_members(fs: Seq<(Seq<char>, JsonItem)>, s: Seq<char>, i: int)
    requires
        fs.len() > 0,
        wf_members(fs),
        0 <= i,
        i + members_text(fs).len() <= s.len(),
        s.subrange(i, i + members_text(fs).len()) == members_text(fs),
    ensures
        parse_fields(s, i) == Some((fs, i + members_text(fs).len())),
    decreases fs.len(),
{
    let w = members_text(fs);
    let k0 = fs[0].0;
    let v0 = fs[0].1;
    let kq = quoted(k0);
    let it = item_text(v0);
    let tail = if fs.len() == 1 {
        seq!['}']
    } else {
        seq![','] + members_text(fs.drop_first())
    };
    assert(literal_key(k0) && wf_member_item(v0));
    lemma_item_text_head(v0);
    assert(w == kq + (seq![':'] + (it + tail)));
    lemma_block_at(s, w, kq, seq![':'] + (it + tail), i);
    lemma_parse_text_at(k0, s, i);
    let j = i + kq.len();
    lemma_block_at(s, seq![':'] + (it + tail), seq![':'], it + tail, j);
    lemma_char_at(s, ':', j);
    assert(skip_ws(s, j) == j);
    let j3 = j + 1;
    lemma_block_at(s, it + tail, it, tail, j3);
    assert(s.subrange(j3, j3 + it.len() as int)[0] == s[j3]);
    assert(s[j3] == it[0]);
    assert(skip_ws(s, j3) == j3);
    match v0 {
        JsonItem::Null => {
            assert(it =~= seq!['n', 'u', 'l', 'l']);
            lemma_parse_item_null(s, j3);
        },
        JsonItem::Text(t) => {
            lemma_parse_item_text(t, s, j3);
        },
        _ => {},
    }
    assert(parse_item(s, j3) == Some((v0, j3 + it.len())));
    let m = j3 + it.len();
    if fs.len() == 1 {
        lemma_char_at(s, '}', m);
        assert(skip_ws(s, m) == m);
        assert(parse_fields(s, i) == Some((seq![(k0, v0)], m + 1)));
        assert(seq![(k0, v0)] =~= fs);
        assert(m + 1 == i + w.len());
    } else {
        let rest = fs.drop_first();
        let wr = members_text(rest);
        lemma_block_at(s, tail, seq![','], wr, m);
        lemma_char_at(s, ',', m);
        assert(skip_ws(s, m) == m);
        let m3 = m + 1;
        assert(wf_members(rest) && rest.len() > 0) by {
            assert forall|k: int|
                0 <= k < rest.len() implies literal_key(#[trigger] rest[k].0) && wf_member_item(
                rest[k].1,
            ) by {
                assert(rest[k] == fs[k + 1]);
            }
        }
        let tr = if rest.len() == 1 {
            seq!['}']
        } else {
            seq![','] + members_text(rest.drop_first())
        };
        assert(wr == quoted(rest[0].0) + (seq![':'] + (item_text(rest[0].1) + tr)));
        lemma_block_at(s, wr, quoted(rest[0].0), seq![':'] + (item_text(rest[0].1) + tr), m3);
        lemma_block_at(s, quoted(rest[0].0), seq!['"'], escaped(rest[0].0) + seq!['"'], m3);
        lemma_char_at(s, '"', m3);
        assert(skip_ws(s, m3) == m3);
        lemma_parse_members(rest, s, m3);
        assert(parse_fields(s, i) == Some((seq![(k0, v0)] + rest, m3 + wr.len())));
        assert(seq![(k0, v0)] + rest =~= fs);
        assert(m3 + wr.len() == i + w.len());
    }
}

/// Parsing inverts the canonical writing of a whole non-empty
/// object.
pub proof fn lemma_parse_object_canonical(fs: Seq<(Seq<char>, JsonItem)>)
    requires
        fs.len() > 0,
        wf_members(fs),
    ensures
        parse_object(object_text(fs)) == Some(fs),
{
    let s = object_text(fs);
    let w = members_text(fs);
    assert(s == seq!['{'] + w);
    assert(s.subrange(0, s.len() as int) =~= s);
    lemma_block_at(s, s, seq!['{'], w, 0);
    lemma_char_at(s, '{', 0);
    assert(skip_ws(s, 0) == 0);
    let tr = if fs.len() == 1 {
        seq!['}']
    } else {
        seq![','] + members_text(fs.drop_first())
    };
    assert(w == quoted(fs[0].0) + (seq![':'] + (item_text(fs[0].1) + tr)));
    lemma_block_at(s, w, quoted(fs[0].0), seq![':'] + (item_text(fs[0].1) + tr), 1);
    lemma_block_at(s, quoted(fs[0].0), seq!['"'], escaped(fs[0].0) + seq!['"'], 1);
    lemma_char_at(s, '"', 1);
    assert(skip_ws(s, 1) == 1);
    lemma_parse_members(fs, s, 1);
    assert(skip_ws(s, 1 + w.len() as int) == s.len() as int);
}

/// Writes one scalar value as JSON text.
pub fn scalar_string(x: &JsonScalar) -> (r: String)
    ensures
        r@ == item_text(x@),
{
    match x {
        JsonScalar::Null => {
            let out = String::from_str("null");
            proof {
                reveal_strlit("null");
                assert(out@ =~= item_text(x@));
            }
            out
        },
        JsonScalar::Truth(b) => {
            if *b {
                let out = String::from_str("true");
                proof {
                    reveal_strlit("true");
                    assert(out@ =~= item_text(x@));
                }
                out
            } else {
                let out = String::from_str("false");
                proof {
                    reveal_strlit("false");
                    assert(out@ =~= item_text(x@));
                }
                out
            }
        },
        JsonScalar::Num(l) => {
            let out = String::from_str(l.as_str());
            out
        },
        JsonScalar::Text(t) => quoted_string(t.as_str()),
        JsonScalar::Composite(r) => {
            let out = String::from_str(r.as_str());
            out
        },
    }
}

} // verus!
