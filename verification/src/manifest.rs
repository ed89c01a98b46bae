//! The `about.toml` manifest of an application bundle: a few `key = "value"`
//! lines and string arrays, read with a deliberately small grammar.
use crate::text::{chars_of, line_views, lines, split_lines, string_from_chars, trim, trim_chars};
use vstd::prelude::*;

verus! {

/// What a backslash followed by `c` stands for inside a string literal.
pub open spec fn unescaped(c: char) -> char {
    if c == 'n' {
        '\n'
    } else if c == 'r' {
        '\r'
    } else if c == 't' {
        '\t'
    } else {
        c
    }
}

/// The state of the literal scanner: the literals finished so far, the one
/// being read, whether a literal is open, and whether a backslash is pending.
pub struct LiteralScan {
    pub values: Seq<Seq<char>>,
    pub current: Seq<char>,
    pub in_string: bool,
    pub escaped: bool,
}

pub open spec fn scan_start() -> LiteralScan {
    LiteralScan { values: Seq::empty(), current: Seq::empty(), in_string: false, escaped: false }
}

/// One character of the scanner: outside a literal only a quote matters and
/// opens one; inside, a backslash escapes the next character and a quote
/// closes the literal.
pub open spec fn scan_step(state: LiteralScan, c: char) -> LiteralScan {
    if !state.in_string {
        if c == '"' {
            LiteralScan { current: Seq::empty(), in_string: true, ..state }
        } else {
            state
        }
    } else if state.escaped {
        LiteralScan { current: state.current.push(unescaped(c)), escaped: false, ..state }
    } else if c == '\\' {
        LiteralScan { escaped: true, ..state }
    } else if c == '"' {
        LiteralScan { values: state.values.push(state.current), in_string: false, ..state }
    } else {
        LiteralScan { current: state.current.push(c), ..state }
    }
}

pub open spec fn scan_text(text: Seq<char>) -> LiteralScan
    decreases text.len(),
{
    if text.len() == 0 {
        scan_start()
    } else {
        scan_step(scan_text(text.drop_last()), text.last())
    }
}

/// The double-quoted string literals of `text`, in order; an unterminated
/// literal is dropped.
pub open spec fn string_literals(text: Seq<char>) -> Seq<Seq<char>> {
    scan_text(text).values
}

/// Whether `i` is the position of the first `c` in `s`.
pub open spec fn is_first_index(s: Seq<char>, c: char, i: int) -> bool {
    0 <= i < s.len() && s[i] == c && forall|j: int| 0 <= j < i ==> s[j] != c
}

/// The position of the first `c` in `s`.
pub open spec fn first_index(s: Seq<char>, c: char) -> int {
    choose|i: int| is_first_index(s, c, i)
}

/// `s` split at its first `c`: the part before and the part after.
pub open spec fn split_once(s: Seq<char>, c: char) -> Option<(Seq<char>, Seq<char>)> {
    if s.contains(c) {
        let i = first_index(s, c);
        Some((s.take(i), s.skip(i + 1)))
    } else {
        None
    }
}

/// The value of `key` among `lines`: the first literal on the first line
/// whose trimmed text has `key` before its first `=`.
pub open spec fn field_in_lines(lines: Seq<Seq<char>>, key: Seq<char>) -> Option<Seq<char>>
    decreases lines.len(),
{
    if lines.len() == 0 {
        None
    } else {
        match split_once(trim(lines[0]), '=') {
            Some((field, value)) => if trim(field) == key {
                let literals = string_literals(value);
                if literals.len() > 0 {
                    Some(literals[0])
                } else {
                    None
                }
            } else {
                field_in_lines(lines.drop_first(), key)
            },
            None => field_in_lines(lines.drop_first(), key),
        }
    }
}

pub open spec fn string_field(content: Seq<char>, key: Seq<char>) -> Option<Seq<char>> {
    field_in_lines(lines(content), key)
}

/// Reading a string array: the values so far and whether an array opened on
/// an earlier line is still open.
pub open spec fn array_step(
    state: (Seq<Seq<char>>, bool),
    line: Seq<char>,
    key: Seq<char>,
) -> (Seq<Seq<char>>, bool) {
    let (values, in_array) = state;
    let line = trim(line);
    if line.len() == 0 {
        state
    } else if in_array {
        (values + string_literals(line), !line.contains(']'))
    } else {
        match split_once(line, '=') {
            Some((field, value)) => if trim(field) == key {
                (values + string_literals(value), value.contains('[') && !value.contains(']'))
            } else {
                state
            },
            None => state,
        }
    }
}

pub open spec fn array_in_lines(lines: Seq<Seq<char>>, key: Seq<char>) -> (Seq<Seq<char>>, bool)
    decreases lines.len(),
{
    if lines.len() == 0 {
        (Seq::empty(), false)
    } else {
        array_step(array_in_lines(lines.drop_last(), key), lines.last(), key)
    }
}

/// The literals of every line that assigns `key`, and of the lines that
/// continue an array opened there, until its `]`.
pub open spec fn string_array_field(content: Seq<char>, key: Seq<char>) -> Seq<Seq<char>> {
    array_in_lines(lines(content), key).0
}

pub open spec fn string_views(strings: Seq<String>) -> Seq<Seq<char>> {
    strings.map_values(|s: String| s@)
}

/// The string literals of `text`.
pub fn parse_literal_chars(text: &[char]) -> (values: Vec<String>)
    ensures
        string_views(values@) == string_literals(text@),
{
    let mut values: Vec<String> = Vec::new();
    let mut current: Vec<char> = Vec::new();
    let mut in_string = false;
    let mut escaped = false;
    let mut index: usize = 0;
    assert(text@.take(0) =~= Seq::<char>::empty());
    assert(string_views(values@) =~= Seq::<Seq<char>>::empty());
    while index < text.len()
        invariant
            index <= text@.len(),
            scan_text(text@.take(index as int)) == (LiteralScan {
                values: string_views(values@),
                current: current@,
                in_string,
                escaped,
            }),
        decreases text@.len() - index,
    {
        let c = text[index];
        let ghost before = string_views(values@);
        assert(text@.take(index + 1).drop_last() =~= text@.take(index as int));
        if !in_string {
            if c == '"' {
                in_string = true;
                current = Vec::new();
            }
        } else if escaped {
            let translated = if c == 'n' {
                '\n'
            } else if c == 'r' {
                '\r'
            } else if c == 't' {
                '\t'
            } else {
                c
            };
            current.push(translated);
            escaped = false;
        } else if c == '\\' {
            escaped = true;
        } else if c == '"' {
            let literal = string_from_chars(current.as_slice());
            values.push(literal);
            assert(string_views(values@) =~= before.push(current@));
            in_string = false;
        } else {
            current.push(c);
        }
        index = index + 1;
    }
    assert(text@.take(text@.len() as int) =~= text@);
    values
}

/// The string literals of `text`.
pub fn parse_string_literals(text: &str) -> (values: Vec<String>)
    ensures
        string_views(values@) == string_literals(text@),
{
    let chars = chars_of(text);
    parse_literal_chars(chars.as_slice())
}

fn find_char(s: &[char], c: char) -> (index: Option<usize>)
    ensures
        match index {
            Some(i) => s@.contains(c) && is_first_index(s@, c, i as int) && i as int == first_index(
                s@,
                c,
            ),
            None => !s@.contains(c),
        },
{
    let mut i: usize = 0;
    while i < s.len()
        invariant
            i <= s@.len(),
            forall|j: int| 0 <= j < i ==> s@[j] != c,
        decreases s@.len() - i,
    {
        if s[i] == c {
            proof {
                assert(s@.contains(c));
                assert(is_first_index(s@, c, i as int));
                let k = first_index(s@, c);
                assert(is_first_index(s@, c, k));
                if k < i {
                    assert(s@[k] != c);
                } else if k > i {
                    assert(s@[i as int] != c);
                }
            }
            return Some(i);
        }
        i = i + 1;
    }
    None
}

fn split_once_chars(s: &[char], c: char) -> (parts: Option<(Vec<char>, Vec<char>)>)
    ensures
        match (parts, split_once(s@, c)) {
            (Some((before, after)), Some((b, a))) => before@ == b && after@ == a,
            (None, None) => true,
            _ => false,
        },
{
    match find_char(s, c) {
        Some(i) => {
            assert(is_first_index(s@, c, i as int));
            let n = s.len();
            let before = crate::text::copy_range(s, 0, i);
            let after = crate::text::copy_range(s, i + 1, n);
            assert(before@ =~= s@.take(i as int));
            assert(after@ =~= s@.skip(i + 1));
            Some((before, after))
        },
        None => None,
    }
}

fn same_chars(a: &[char], b: &[char]) -> (same: bool)
    ensures
        same == (a@ == b@),
{
    if a.len() != b.len() {
        return false;
    }
    let mut i: usize = 0;
    while i < a.len()
        invariant
            i <= a@.len() == b@.len(),
            forall|j: int| 0 <= j < i ==> a@[j] == b@[j],
        decreases a@.len() - i,
    {
        if a[i] != b[i] {
            return false;
        }
        i = i + 1;
    }
    assert(a@ =~= b@);
    true
}

/// The value of `key` in a manifest.
pub fn parse_string_field(content: &str, key: &str) -> (value: Option<String>)
    ensures
        match (value, string_field(content@, key@)) {
            (Some(found), Some(expected)) => found@ == expected,
            (None, None) => true,
            _ => false,
        },
{
    let chars = chars_of(content);
    let key_chars = chars_of(key);
    let all_lines = split_lines(chars.as_slice());
    let mut index: usize = 0;
    assert(lines(content@).skip(0) =~= lines(content@));
    while index < all_lines.len()
        invariant
            index <= all_lines@.len(),
            line_views(all_lines@) == lines(content@),
            key_chars@ == key@,
            field_in_lines(lines(content@), key@) == field_in_lines(
                lines(content@).skip(index as int),
                key@,
            ),
        decreases all_lines@.len() - index,
    {
        let ghost rest = lines(content@).skip(index as int);
        assert(rest[0] == all_lines@[index as int]@);
        assert(rest.drop_first() =~= lines(content@).skip(index + 1));
        let line = trim_chars(all_lines[index].as_slice());
        if let Some((field, value)) = split_once_chars(line.as_slice(), '=') {
            let field = trim_chars(field.as_slice());
            if same_chars(field.as_slice(), key_chars.as_slice()) {
                let literals = parse_literal_chars(value.as_slice());
                if literals.len() > 0 {
                    let first = literals[0].clone();
                    return Some(first);
                }
                return None;
            }
        }
        index = index + 1;
    }
    None
}

fn append_strings(values: &mut Vec<String>, more: &Vec<String>)
    ensures
        string_views(final(values)@) == string_views(old(values)@) + string_views(more@),
{
    let mut k: usize = 0;
    while k < more.len()
        invariant
            k <= more@.len(),
            string_views(values@) == string_views(old(values)@) + string_views(more@).take(k as int),
        decreases more@.len() - k,
    {
        let ghost previous = string_views(values@);
        let item = more[k].clone();
        values.push(item);
        assert(string_views(values@) =~= previous.push(item@));
        assert(string_views(more@).take(k + 1) =~= string_views(more@).take(k as int).push(
            more@[k as int]@,
        ));
        k = k + 1;
    }
    assert(string_views(more@).take(more@.len() as int) =~= string_views(more@));
}

fn contains_char(s: &[char], c: char) -> (found: bool)
    ensures
        found == s@.contains(c),
{
    find_char(s, c).is_some()
}

/// The values of the string array `key` in a manifest.
pub fn parse_string_array_field(content: &str, key: &str) -> (values: Vec<String>)
    ensures
        string_views(values@) == string_array_field(content@, key@),
{
    let chars = chars_of(content);
    let key_chars = chars_of(key);
    let all_lines = split_lines(chars.as_slice());
    let mut values: Vec<String> = Vec::new();
    let mut in_array = false;
    let mut index: usize = 0;
    assert(lines(content@).take(0) =~= Seq::<Seq<char>>::empty());
    while index < all_lines.len()
        invariant
            index <= all_lines@.len(),
            line_views(all_lines@) == lines(content@),
            key_chars@ == key@,
            array_in_lines(lines(content@).take(index as int), key@) == (
                string_views(values@),
                in_array,
            ),
        decreases all_lines@.len() - index,
    {
        let ghost taken = lines(content@).take(index + 1);
        assert(taken.drop_last() =~= lines(content@).take(index as int));
        assert(taken.last() == all_lines@[index as int]@);
        let ghost before = string_views(values@);
        let line = trim_chars(all_lines[index].as_slice());
        if line.len() == 0 {
        } else if in_array {
            let found = parse_literal_chars(line.as_slice());
            append_strings(&mut values, &found);
            if contains_char(line.as_slice(), ']') {
                in_array = false;
            }
        } else if let Some((field, value)) = split_once_chars(line.as_slice(), '=') {
            let field = trim_chars(field.as_slice());
            if same_chars(field.as_slice(), key_chars.as_slice()) {
                let found = parse_literal_chars(value.as_slice());
                append_strings(&mut values, &found);
                if contains_char(value.as_slice(), '[') && !contains_char(value.as_slice(), ']') {
                    in_array = true;
                }
            }
        }
        index = index + 1;
    }
    assert(lines(content@).take(all_lines@.len() as int) =~= lines(content@));
    values
}

} // verus!
