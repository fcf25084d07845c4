//! JSON text tools: validation with line/column error reports, pretty and
//! compact re-printing, and unescaping of stringified JSON.

use vstd::prelude::*;

use crate::json_tree::{flatten, well_formed, JsonTree, JsonValue, NodeModel};
use crate::text::{
    all_whitespace, all_ws, chars_of, contains, decimal, find_from, lead_ws, lemma_find_from,
    lemma_occurs_in_subrange, lemma_trim_bounds, occurs_at, push_char, push_decimal, push_str, string_of, trail_ws,
    trim, trim_bounds,
};

verus! {

#[verifier::external_type_specification]
#[verifier::external_body]
pub struct ExJsonValue(serde_json::Value);

/// Whether serde_json accepts `text` as one JSON document (what
/// `serde_json::from_str::<serde_json::Value>` succeeds on).
pub uninterp spec fn json_accepts(text: Seq<char>) -> bool;

/// The string that `text` denotes when `text` is one JSON string literal
/// (what `serde_json::from_str::<String>` returns), or `None`.
pub uninterp spec fn json_string_literal(text: Seq<char>) -> Option<Seq<char>>;

/// The text that `serde_json::to_string_pretty` prints of the document that
/// `text` holds: two-space indentation, members in document order.
pub uninterp spec fn json_pretty(text: Seq<char>) -> Seq<char>;

/// The text that `serde_json::to_string` prints of the document that `text`
/// holds: one line, no white space between tokens.
pub uninterp spec fn json_compact(text: Seq<char>) -> Seq<char>;

/// The document that `text` holds, as a [`JsonValue`]: members in document
/// order, numbers as serde_json prints them.
pub uninterp spec fn json_value_of(text: Seq<char>) -> JsonValue;

/// The one-based line that `serde_json::Error::line` gives for the error of
/// parsing `text`.
pub uninterp spec fn json_error_line(text: Seq<char>) -> usize;

/// The one-based column that `serde_json::Error::column` gives for the error
/// of parsing `text`.
pub uninterp spec fn json_error_column(text: Seq<char>) -> usize;

/// The text that the error of parsing `text` displays as: serde_json's
/// message, then ` at line L column C`.
pub uninterp spec fn json_error_text(text: Seq<char>) -> Seq<char>;

/// What serde_json reports of a text it refuses: the error's line, column
/// and displayed text.
pub struct ParseFailure {
    pub line: usize,
    pub column: usize,
    pub text: String,
}

/// `serde_json::from_str::<serde_json::Value>`: succeeds exactly on the texts
/// that serde_json accepts; on the others it hands back the error's line,
/// column and displayed text, each a function of the text. What the value
/// holds is not stated: Verus cannot look inside a `serde_json::Value`.
#[verifier::external_body]
fn from_str_value(input: &str) -> (r: Result<serde_json::Value, ParseFailure>)
    ensures
        r is Ok <==> json_accepts(input@),
        r matches Err(f) ==> f.line == json_error_line(input@) && f.column == json_error_column(input@)
            && f.text@ == json_error_text(input@),
{
    match serde_json::from_str::<serde_json::Value>(input) {
        Ok(v) => Ok(v),
        Err(e) => Err(ParseFailure { line: e.line(), column: e.column(), text: e.to_string() }),
    }
}

/// `serde_json::from_str::<String>`: decodes one JSON string literal; the
/// error, where there is one, is dropped.
#[verifier::external_body]
fn from_str_string(input: &str) -> (r: Option<String>)
    ensures
        r is Some <==> json_string_literal(input@) is Some,
        r matches Some(s) ==> json_string_literal(input@) == Some(s@),
{
    serde_json::from_str::<String>(input).ok()
}

/// `serde_json::from_str::<serde_json::Value>` followed by
/// `serde_json::to_string_pretty`. Printing does not fail on a `Value`:
/// serde_json's source serializes a `Value`, whose map keys are strings,
/// into a buffer that cannot fail to grow. So the result is the pretty text
/// exactly when the text is accepted, else the parse error.
#[verifier::external_body]
fn pretty_print(input: &str) -> (r: Result<String, ParseFailure>)
    ensures
        r is Ok <==> json_accepts(input@),
        r matches Ok(s) ==> s@ == json_pretty(input@),
        r matches Err(f) ==> f.line == json_error_line(input@) && f.column == json_error_column(input@)
            && f.text@ == json_error_text(input@),
{
    match serde_json::from_str::<serde_json::Value>(input) {
        Ok(v) => Ok(serde_json::to_string_pretty(&v).unwrap_or_default()),
        Err(e) => Err(ParseFailure { line: e.line(), column: e.column(), text: e.to_string() }),
    }
}

/// `serde_json::from_str::<serde_json::Value>` followed by
/// `serde_json::to_string`, which does not fail on a `Value` (as for
/// [`pretty_print`]).
#[verifier::external_body]
fn compact_print(input: &str) -> (r: Result<String, ParseFailure>)
    ensures
        r is Ok <==> json_accepts(input@),
        r matches Ok(s) ==> s@ == json_compact(input@),
        r matches Err(f) ==> f.line == json_error_line(input@) && f.column == json_error_column(input@)
            && f.text@ == json_error_text(input@),
{
    match serde_json::from_str::<serde_json::Value>(input) {
        Ok(v) => Ok(serde_json::to_string(&v).unwrap_or_default()),
        Err(e) => Err(ParseFailure { line: e.line(), column: e.column(), text: e.to_string() }),
    }
}

/// A parsed `serde_json::Value` as a [`JsonValue`]: one arm per variant,
/// numbers by serde_json's own printing, members in the map's order. It is
/// only called by [`value_from_str`], whose contract states the result.
#[verifier::external_body]
fn value_of(v: &serde_json::Value) -> JsonValue {
    match v {
        serde_json::Value::Null => JsonValue::Null,
        serde_json::Value::Bool(b) => JsonValue::Bool(*b),
        serde_json::Value::Number(n) => JsonValue::Number(n.to_string()),
        serde_json::Value::String(s) => JsonValue::String(s.clone()),
        serde_json::Value::Array(items) => JsonValue::Array(items.iter().map(value_of).collect()),
        serde_json::Value::Object(map) => JsonValue::Object(map.iter().map(|(k, x)| (k.clone(), value_of(x))).collect()),
    }
}

/// `serde_json::from_str::<serde_json::Value>`, the document handed over as
/// a [`JsonValue`]. With the `preserve_order` feature serde_json keeps an
/// object's members in document order, so the value is a function of the
/// text.
#[verifier::external_body]
fn value_from_str(input: &str) -> (r: Option<JsonValue>)
    ensures
        r is Some <==> json_accepts(input@),
        r matches Some(v) ==> v == json_value_of(input@),
{
    match serde_json::from_str::<serde_json::Value>(input) {
        Ok(v) => Some(value_of(&v)),
        Err(_) => None,
    }
}

/// The rows of the fold tree of the document that `text` holds.
pub open spec fn tree_of(text: Seq<char>) -> Seq<NodeModel> {
    flatten(json_value_of(text), None, 0, Seq::empty(), false, 0)
}

/// The fold tree of the document that `input` holds, every container
/// unfolded; `None` when serde_json refuses the text.
pub fn tree_of_text(input: &str) -> (r: Option<JsonTree>)
    ensures
        r is Some <==> json_accepts(input@),
        r matches Some(t) ==> t@ == tree_of(input@) && well_formed(t@),
{
    match value_from_str(input) {
        Some(v) => Some(JsonTree::from_value(&v)),
        None => None,
    }
}

/// A syntax error in JSON text, with its one-based position.
#[derive(Debug, Clone, PartialEq, Eq)]
pub struct JsonIssue {
    pub line: usize,
    pub column: usize,
    pub message: String,
}

/// `第 line 行第 column 列：message`.
pub open spec fn issue_display(line: nat, column: nat, message: Seq<char>) -> Seq<char> {
    seq!['第', ' '] + decimal(line) + seq![' ', '行', '第', ' '] + decimal(column) + seq![' ', '列', '：'] + message
}

impl JsonIssue {
    /// The report shown to the user.
    pub fn display(&self) -> (r: String)
        ensures
            r@ == issue_display(self.line as nat, self.column as nat, self.message@),
    {
        let mut s = String::new();
        push_char(&mut s, '第');
        push_char(&mut s, ' ');
        push_decimal(&mut s, self.line);
        push_char(&mut s, ' ');
        push_char(&mut s, '行');
        push_char(&mut s, '第');
        push_char(&mut s, ' ');
        push_decimal(&mut s, self.column);
        push_char(&mut s, ' ');
        push_char(&mut s, '列');
        push_char(&mut s, '：');
        push_str(&mut s, self.message.as_str());
        assert(s@ =~= issue_display(self.line as nat, self.column as nat, self.message@));
        s
    }
}

/// Whether the text holds nothing but white space.
pub fn empty_input(text: &str) -> (r: bool)
    ensures
        r == all_ws(text@),
{
    let v = chars_of(text);
    all_whitespace(&v)
}

/// The marker that serde_json puts before an error's position.
pub open spec fn at_line_marker() -> Seq<char> {
    seq![' ', 'a', 't', ' ', 'l', 'i', 'n', 'e', ' ']
}

/// The message of an error report without its position: the text before
/// the first ` at line `, trimmed.
pub open spec fn message_without_position(full: Seq<char>) -> Seq<char> {
    match find_from(full, at_line_marker(), 0) {
        Some(i) => trim(full.take(i as int)),
        None => trim(full),
    }
}

fn occurs_here(s: &Vec<char>, pat: &[char], i: usize) -> (r: bool)
    requires
        i + pat.len() <= s.len(),
    ensures
        r == (s@.subrange(i as int, i + pat@.len()) == pat@),
{
    let mut j: usize = 0;
    while j < pat.len()
        invariant
            i + pat.len() <= s.len(),
            j <= pat@.len(),
            forall|t: int| 0 <= t < j ==> s@[i + t] == pat@[t],
        decreases pat@.len() - j,
    {
        if s[i + j] != pat[j] {
            assert(s@.subrange(i as int, i + pat@.len())[j as int] != pat@[j as int]);
            return false;
        }
        j = j + 1;
    }
    assert(s@.subrange(i as int, i + pat@.len()) =~= pat@);
    true
}

/// First index of `pat` in `s`.
fn find_first(s: &Vec<char>, pat: &[char]) -> (r: Option<usize>)
    requires
        pat@.len() > 0,
    ensures
        r is None <==> find_from(s@, pat@, 0) is None,
        r matches Some(k) ==> find_from(s@, pat@, 0) == Some(k as nat),
{
    let mut i: usize = 0;
    while i <= s.len() && pat.len() <= s.len() - i
        invariant
            pat@.len() > 0,
            i <= s@.len() + 1,
            find_from(s@, pat@, 0) == find_from(s@, pat@, i as nat),
        decreases s@.len() + 1 - i,
    {
        if occurs_here(s, pat, i) {
            return Some(i);
        }
        i = i + 1;
    }
    None
}

/// The message of an error report without its position (see
/// [`message_without_position`]).
pub fn issue_message(full: &str) -> (r: String)
    ensures
        r@ == message_without_position(full@),
{
    let v = chars_of(full);
    let marker = [' ', 'a', 't', ' ', 'l', 'i', 'n', 'e', ' '];
    assert(marker@ == at_line_marker());
    proof {
        lemma_find_from(v@, marker@, 0);
    }
    let end = match find_first(&v, &marker) {
        Some(i) => i,
        None => v.len(),
    };
    let head = vstd::slice::slice_subrange(v.as_slice(), 0, end);
    let head_vec = vstd::slice::slice_to_vec(head);
    let (lo, hi) = trim_bounds(&head_vec);
    proof {
        assert(head_vec@ =~= v@.take(end as int));
        match find_from(full@, at_line_marker(), 0) {
            Some(i) => {
                assert(end == i);
            },
            None => {
                assert(end == v@.len());
                assert(v@.take(v@.len() as int) =~= v@);
            },
        }
        assert(trim(head_vec@) == message_without_position(full@));
    }
    string_of(&head_vec, lo, hi)
}

/// The report shown for a text that serde_json refuses: its position, and
/// its message without the position.
pub open spec fn issue_of_text(text: Seq<char>) -> (nat, nat, Seq<char>) {
    (json_error_line(text) as nat, json_error_column(text) as nat, message_without_position(json_error_text(text)))
}

/// `e` is the report of the error serde_json finds in `text`.
pub open spec fn reports_error_of(e: JsonIssue, text: Seq<char>) -> bool {
    (e.line as nat, e.column as nat, e.message@) == issue_of_text(text)
}

/// The report of what serde_json refused: its line and column, and its
/// displayed text without the position.
pub fn issue_of(failure: &ParseFailure) -> (r: JsonIssue)
    ensures
        r.line == failure.line && r.column == failure.column,
        r.message@ == message_without_position(failure.text@),
{
    JsonIssue { line: failure.line, column: failure.column, message: issue_message(failure.text.as_str()) }
}

/// Parses `input` as one JSON document.
pub fn parse(input: &str) -> (r: Result<serde_json::Value, JsonIssue>)
    ensures
        r is Ok <==> json_accepts(input@),
        r matches Err(e) ==> reports_error_of(e, input@),
{
    match from_str_value(input) {
        Ok(v) => Ok(v),
        Err(f) => Err(issue_of(&f)),
    }
}

/// Checks that `input` is one JSON document.
pub fn validate_json(input: &str) -> (r: Result<(), JsonIssue>)
    ensures
        r is Ok <==> json_accepts(input@),
        r matches Err(e) ==> reports_error_of(e, input@),
{
    match parse(input) {
        Ok(_) => Ok(()),
        Err(e) => Err(e),
    }
}

/// Re-prints `input` with two-space indentation.
pub fn format_json(input: &str) -> (r: Result<String, JsonIssue>)
    ensures
        r is Ok <==> json_accepts(input@),
        r matches Ok(s) ==> s@ == json_pretty(input@),
        r matches Err(e) ==> reports_error_of(e, input@),
{
    match pretty_print(input) {
        Ok(s) => Ok(s),
        Err(f) => Err(issue_of(&f)),
    }
}

/// Re-prints `input` on one line without white space.
pub fn minify_json(input: &str) -> (r: Result<String, JsonIssue>)
    ensures
        r is Ok <==> json_accepts(input@),
        r matches Ok(s) ==> s@ == json_compact(input@),
        r matches Err(e) ==> reports_error_of(e, input@),
{
    match compact_print(input) {
        Ok(s) => Ok(s),
        Err(f) => Err(issue_of(&f)),
    }
}

// ---------------------------------------------------------------------------
// Unescaping
// ---------------------------------------------------------------------------

/// An ASCII hexadecimal digit.
pub open spec fn is_hex(c: char) -> bool {
    ('0' <= c && c <= '9') || ('a' <= c && c <= 'f') || ('A' <= c && c <= 'F')
}

/// Value of a hexadecimal digit.
pub open spec fn hex_val(c: char) -> nat {
    if '0' <= c && c <= '9' {
        (c as nat - 48) as nat
    } else if 'a' <= c && c <= 'f' {
        (c as nat - 87) as nat
    } else {
        (c as nat - 55) as nat
    }
}

/// Number of hexadecimal digits in a row at index `i`, at most `max`.
pub open spec fn hex_run(s: Seq<char>, i: int, max: nat) -> nat
    decreases max,
{
    if max == 0 || i < 0 || i >= s.len() || !is_hex(s[i]) {
        0
    } else {
        1 + hex_run(s, i + 1, (max - 1) as nat)
    }
}

/// A run of hex digits counted up to `max` is at most `max` long.
pub proof fn lemma_hex_run_le(s: Seq<char>, i: int, max: nat)
    ensures
        hex_run(s, i, max) <= max,
    decreases max,
{
    if max > 0 {
        lemma_hex_run_le(s, i + 1, (max - 1) as nat);
    }
}

/// Value of the four hexadecimal digits at index `i`.
pub open spec fn hex4_value(s: Seq<char>, i: int) -> nat {
    hex_val(s[i]) * 4096 + hex_val(s[i + 1]) * 256 + hex_val(s[i + 2]) * 16 + hex_val(s[i + 3])
}

/// A Unicode scalar value (what `char::from_u32` accepts).
pub open spec fn is_scalar(v: nat) -> bool {
    v < 0xD800 || (0xE000 <= v && v <= 0x10FFFF)
}

/// The character a backslash escape `\e` stands for, `e` not being `u`.
pub open spec fn escaped_char(e: char) -> char {
    if e == 'b' {
        '\u{08}'
    } else if e == 'f' {
        '\u{0C}'
    } else if e == 'n' {
        '\n'
    } else if e == 'r' {
        '\r'
    } else if e == 't' {
        '\t'
    } else {
        e
    }
}

/// The text from index `i` on with its backslash escapes decoded: `\b \f \n
/// \r \t` stand for control characters, `\uXXXX` for the character of that
/// code when it is one, and a backslash before any other character for that
/// character. A `\u` with fewer than four hex digits, or a surrogate code,
/// stays as written; a lone backslash at the end stays.
pub open spec fn unescape_from(s: Seq<char>, i: int) -> Seq<char>
    decreases s.len() + 6 - i,
{
    if i < 0 || i >= s.len() {
        Seq::empty()
    } else if s[i] != '\\' {
        seq![s[i]] + unescape_from(s, i + 1)
    } else if i + 1 >= s.len() {
        seq!['\\']
    } else if s[i + 1] == 'u' {
        let n = hex_run(s, i + 2, 4);
        proof {
            lemma_hex_run_le(s, i + 2, 4);
        }
        if n == 4 && is_scalar(hex4_value(s, i + 2)) {
            seq![hex4_value(s, i + 2) as char] + unescape_from(s, i + 6)
        } else {
            seq!['\\', 'u'] + s.subrange(i + 2, i + 2 + n) + unescape_from(s, i + 2 + n)
        }
    } else {
        seq![escaped_char(s[i + 1])] + unescape_from(s, i + 2)
    }
}

/// `char::from_u32`: the character with code `code`, when `code` is a
/// Unicode scalar value (documented).
#[verifier::external_body]
fn char_from_u32(code: u32) -> (r: Option<char>)
    ensures
        r == (if is_scalar(code as nat) { Some(code as char) } else { None::<char> }),
{
    char::from_u32(code)
}

fn is_hex_digit(c: char) -> (r: bool)
    ensures
        r == is_hex(c),
{
    ('0' <= c && c <= '9') || ('a' <= c && c <= 'f') || ('A' <= c && c <= 'F')
}

fn hex_digit_value(c: char) -> (r: u32)
    requires
        is_hex(c),
    ensures
        r as nat == hex_val(c),
        r < 16,
{
    let x = c as u32;
    if '0' <= c && c <= '9' {
        x - 48
    } else if 'a' <= c && c <= 'f' {
        x - 87
    } else {
        x - 55
    }
}

proof fn lemma_hex_run(s: Seq<char>, i: int, max: nat, k: nat)
    requires
        0 <= i,
        k <= max,
        i + k <= s.len(),
        forall|t: int| 0 <= t < k ==> is_hex(#[trigger] s[i + t]),
        k == max || i + k == s.len() || !is_hex(s[i + k]),
    ensures
        hex_run(s, i, max) == k,
    decreases k,
{
    if k > 0 {
        assert forall|t: int| 0 <= t < k - 1 implies is_hex(#[trigger] s[(i + 1) + t]) by {
            assert(is_hex(s[i + (t + 1)]));
        }
        assert(is_hex(s[i + 0]));
        lemma_hex_run(s, i + 1, (max - 1) as nat, (k - 1) as nat);
    }
}

/// The text with its backslash escapes decoded (see [`unescape_from`]).
fn unescape_raw_string(input: &Vec<char>) -> (r: String)
    ensures
        r@ == unescape_from(input@, 0),
{
    let s = input;
    let n = s.len();
    let mut out = String::new();
    let mut i: usize = 0;
    while i < n
        invariant
            n == s@.len(),
            i <= n,
            out@ + unescape_from(s@, i as int) == unescape_from(s@, 0),
        decreases n - i,
    {
        let c = s[i];
        if c != '\\' {
            push_char(&mut out, c);
            i = i + 1;
        } else if i + 1 >= n {
            push_char(&mut out, '\\');
            i = i + 1;
            assert(unescape_from(s@, i as int) =~= Seq::empty());
        } else if s[i + 1] == 'u' {
            let start = i + 2;
            let mut k: usize = 0;
            while k < 4 && start + k < n && is_hex_digit(s[start + k])
                invariant
                    n == s@.len(),
                    start <= n,
                    k <= 4,
                    start + k <= n,
                    forall|t: int| 0 <= t < k ==> is_hex(#[trigger] s@[start + t]),
                decreases 4 - k,
            {
                k = k + 1;
            }
            proof {
                lemma_hex_run(s@, start as int, 4, k as nat);
            }
            let mut decoded = false;
            if k == 4 {
                let code = hex_digit_value(s[start]) * 4096 + hex_digit_value(s[start + 1]) * 256
                    + hex_digit_value(s[start + 2]) * 16 + hex_digit_value(s[start + 3]);
                assert(code as nat == hex4_value(s@, start as int)) by {
                    assert(is_hex(s@[start + 0]));
                }
                match char_from_u32(code) {
                    Some(ch) => {
                        push_char(&mut out, ch);
                        decoded = true;
                    },
                    None => {},
                }
            }
            if !decoded {
                let ghost before = out@;
                push_char(&mut out, '\\');
                push_char(&mut out, 'u');
                let mut t: usize = 0;
                while t < k
                    invariant
                        n == s@.len(),
                        start + k <= n,
                        t <= k,
                        out@ == before + seq!['\\', 'u'] + s@.subrange(start as int, start + t),
                    decreases k - t,
                {
                    push_char(&mut out, s[start + t]);
                    proof {
                        assert(s@.subrange(start as int, start + t + 1) =~= s@.subrange(start as int, start + t).push(s@[start + t]));
                    }
                    t = t + 1;
                }
            }
            i = start + k;
        } else {
            let e = s[i + 1];
            let ch = if e == 'b' {
                '\u{08}'
            } else if e == 'f' {
                '\u{0C}'
            } else if e == 'n' {
                '\n'
            } else if e == 'r' {
                '\r'
            } else if e == 't' {
                '\t'
            } else {
                e
            };
            push_char(&mut out, ch);
            i = i + 2;
        }
    }
    assert(out@ + unescape_from(s@, i as int) == out@ + Seq::<char>::empty());
    assert(out@ + Seq::<char>::empty() =~= out@);
    out
}


/// Whether the trimmed text is a double-quoted literal candidate.
pub open spec fn quoted(t: Seq<char>) -> bool {
    t.len() >= 2 && t[0] == '"' && t.last() == '"'
}

/// Stringified JSON decoded as a JSON string literal, when it is one.
pub open spec fn literal_attempt(t: Seq<char>) -> Option<Seq<char>> {
    if quoted(t) { json_string_literal(t) } else { None }
}

/// The text wrapped in double quotes and decoded as a JSON string literal.
pub open spec fn wrapped_attempt(t: Seq<char>) -> Option<Seq<char>> {
    json_string_literal(seq!['"'] + t + seq!['"'])
}

/// `r` is `Ok` with text `x`.
pub open spec fn ok_text(r: Result<String, JsonIssue>, x: Seq<char>) -> bool {
    match r {
        Ok(s) => s@ == x,
        Err(_) => false,
    }
}

/// What unescaping gives for `input`: nothing for a blank text; a quoted
/// text that is one JSON string literal gives the string it denotes; else
/// the text with its backslash escapes decoded; else, where the text wrapped
/// in quotes is a literal whose string is JSON, that string. A result that
/// is a JSON document is re-printed with indentation.
pub open spec fn unescaped_text(input: Seq<char>) -> Seq<char> {
    let t = trim(input);
    let u = unescape_from(t, 0);
    if t.len() == 0 {
        Seq::empty()
    } else if literal_attempt(t) is Some {
        let p = literal_attempt(t)->0;
        if json_accepts(p) { json_pretty(p) } else { p }
    } else if json_accepts(u) {
        json_pretty(u)
    } else if wrapped_attempt(t) is Some && json_accepts(wrapped_attempt(t)->0) {
        json_pretty(wrapped_attempt(t)->0)
    } else {
        u
    }
}

/// Unescapes stringified or escaped JSON text (see [`unescaped_text`]).
pub fn unescape_json(input: &str) -> (r: Result<String, JsonIssue>)
    ensures
        ok_text(r, unescaped_text(input@)),
{
    let v = chars_of(input);
    let (lo, hi) = trim_bounds(&v);
    if lo == hi {
        return Ok(String::new());
    }
    let trimmed = string_of(&v, lo, hi);
    let tv = chars_of(trimmed.as_str());
    let ghost t = trim(input@);
    assert(tv@ == t);
    let n = tv.len();
    if n >= 2 && tv[0] == '"' && tv[n - 1] == '"' {
        match from_str_string(trimmed.as_str()) {
            Some(parsed_str) => {
                match pretty_print(parsed_str.as_str()) {
                    Ok(pretty) => {
                        return Ok(pretty);
                    },
                    Err(_) => {
                        return Ok(parsed_str);
                    },
                }
            },
            None => {},
        }
    }
    assert(literal_attempt(t) is None);
    let unescaped = unescape_raw_string(&tv);
    match pretty_print(unescaped.as_str()) {
        Ok(pretty) => {
            return Ok(pretty);
        },
        Err(_) => {},
    }
    let mut wrapped = String::new();
    push_char(&mut wrapped, '"');
    push_str(&mut wrapped, trimmed.as_str());
    push_char(&mut wrapped, '"');
    assert(wrapped@ =~= seq!['"'] + t + seq!['"']);
    match from_str_string(wrapped.as_str()) {
        Some(parsed) => {
            match pretty_print(parsed.as_str()) {
                Ok(pretty) => {
                    return Ok(pretty);
                },
                Err(_) => {},
            }
        },
        None => {},
    }
    Ok(unescaped)
}


/// A report's message never holds ` at line `: the position serde_json
/// appends is cut off.
pub proof fn lemma_message_has_no_position(full: Seq<char>)
    ensures
        !contains(message_without_position(full), at_line_marker()),
{
    let m = at_line_marker();
    lemma_find_from(full, m, 0);
    let p = match find_from(full, m, 0) {
        Some(i) => full.take(i as int),
        None => full,
    };
    assert forall|j: int| !occurs_at(p, m, j) by {
        if occurs_at(p, m, j) {
            assert(p == full.subrange(0, p.len() as int));
            lemma_occurs_in_subrange(full, m, 0, p.len() as int, j);
        }
    }
    let l = lead_ws(p);
    lemma_trim_bounds(p);
    assert forall|j: int| !occurs_at(trim(p), m, j) by {
        if occurs_at(trim(p), m, j) {
            if l < p.len() {
                lemma_occurs_in_subrange(p, m, l as int, p.len() - trail_ws(p), j);
            }
        }
    }
    assert(message_without_position(full) == trim(p));
}

/// Text without a backslash decodes to itself.
pub proof fn lemma_unescape_plain(s: Seq<char>, i: int)
    requires
        0 <= i <= s.len(),
        forall|k: int| 0 <= k < s.len() ==> s[k] != '\\',
    ensures
        unescape_from(s, i) == s.skip(i),
    decreases s.len() - i,
{
    if i < s.len() {
        lemma_unescape_plain(s, i + 1);
        assert(s.skip(i) =~= seq![s[i]] + s.skip(i + 1));
    } else {
        assert(s.skip(i) =~= Seq::<char>::empty());
    }
}

/// Where the trimmed text is not blank and is no JSON string literal, and
/// decoding its escapes gives a JSON document, unescaping re-prints that
/// document with indentation. In particular JSON text without a backslash
/// that does not start with a double quote comes out as [`format_json`]
/// prints the trimmed text.
pub proof fn lemma_unescape_reprints_json(input: Seq<char>)
    requires
        trim(input).len() > 0,
        literal_attempt(trim(input)) is None,
        json_accepts(unescape_from(trim(input), 0)),
    ensures
        unescaped_text(input) == json_pretty(unescape_from(trim(input), 0)),
        (forall|k: int| 0 <= k < trim(input).len() ==> trim(input)[k] != '\\') ==> unescaped_text(input)
            == json_pretty(trim(input)),
{
    let t = trim(input);
    if forall|k: int| 0 <= k < t.len() ==> t[k] != '\\' {
        lemma_unescape_plain(t, 0);
        assert(t.skip(0) =~= t);
    }
}

/// How a JSON string writes a character: a backslash, a double quote and
/// the control characters backspace, form feed, newline, carriage return and
/// tab as two-character escapes, every other character as itself.
pub open spec fn escape_char(c: char) -> Seq<char> {
    if c == '\\' {
        seq!['\\', '\\']
    } else if c == '"' {
        seq!['\\', '"']
    } else if c == '\n' {
        seq!['\\', 'n']
    } else if c == '\r' {
        seq!['\\', 'r']
    } else if c == '\t' {
        seq!['\\', 't']
    } else if c == '\u{08}' {
        seq!['\\', 'b']
    } else if c == '\u{0C}' {
        seq!['\\', 'f']
    } else {
        seq![c]
    }
}

/// The text `t` with every character written as a JSON string writes it.
pub open spec fn json_escaped(t: Seq<char>) -> Seq<char>
    decreases t.len(),
{
    if t.len() == 0 {
        Seq::empty()
    } else {
        escape_char(t[0]) + json_escaped(t.drop_first())
    }
}

proof fn lemma_unescape_escaped_after(p: Seq<char>, t: Seq<char>)
    ensures
        unescape_from(p + json_escaped(t), p.len() as int) == t,
    decreases t.len(),
{
    let s = p + json_escaped(t);
    if t.len() == 0 {
        assert(s =~= p);
        assert(t =~= Seq::<char>::empty());
    } else {
        let c = t[0];
        let e = escape_char(c);
        let rest = t.drop_first();
        assert(s =~= (p + e) + json_escaped(rest));
        lemma_unescape_escaped_after(p + e, rest);
        assert(t =~= seq![c] + rest);
        let i = p.len() as int;
        if e.len() == 1 {
            assert(s[i] == c);
            assert(unescape_from(s, i) == seq![s[i]] + unescape_from(s, i + 1));
        } else {
            assert(s[i] == '\\');
            assert(s[i + 1] == e[1]);
            assert(escaped_char(e[1]) == c);
            assert(unescape_from(s, i) == seq![escaped_char(s[i + 1])] + unescape_from(s, i + 2));
        }
    }
}

/// Decoding the escapes of any text written as a JSON string writes it
/// gives the text back: each escape, `\\` and `\"` among them, stands for
/// the one character it escapes.
pub proof fn lemma_unescape_inverts_escape(t: Seq<char>)
    ensures
        unescape_from(json_escaped(t), 0) == t,
{
    lemma_unescape_escaped_after(Seq::empty(), t);
    assert(Seq::<char>::empty() + json_escaped(t) =~= json_escaped(t));
}

} // verus!
