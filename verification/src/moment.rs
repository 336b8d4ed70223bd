//! The `Moment.from({ .. })` literal, as triage reports print it, read into the
//! parameters of a debugging session.
//!
//! The literal is the prefix `Moment.from(`, an object, and `)`. The object is
//! written as `{ key: value, .. }`, with spaces, tabs and line ends allowed
//! around every token and a comma allowed after the last pair. A key is a name
//! (letters, digits, `_` and `$`, not starting with a digit) or a quoted
//! string. A value is a quoted string or a number. A number is written as a
//! sign, if any, and decimal digits with at most one point, and is stored in
//! its decimal representation: `329.8037` as it is, `007` as `7`, `1.50` as
//! `1.5`, `.5` as `0.5`, `+3` as `3`. A number with an exponent or in another
//! base is not accepted. A string is quoted with `"` or with `'` and runs to
//! the next such quote; a backslash in it is not accepted.
//!
//! The keys `session_id`, `input_hash` and `vtime` become
//! `antithesis.debugging.session_id` and so on; any other key is an error.

use vstd::prelude::*;
use vstd::string::StrSliceExecFns;
use vstd::string::StringExecFns;

use crate::error::Error;
use crate::json::object_insert;
use crate::json::object_model;
use crate::json::object_new;
use crate::json::value_from_text;
use crate::json::Entries;
use crate::json::Json;
use crate::params::Params;
use crate::text::chars_of;
use crate::text::is_digit;
use crate::text::matches_at;
use crate::text::str_eq;

verus! {

/// The kinds of characters that a scan runs over.
pub enum Class {
    /// A space, a tab or a line end.
    Space,
    /// A letter, a digit, `_` or `$`.
    Name,
    /// A decimal digit.
    Digit,
    /// Anything but the given quote and the backslash.
    Plain(char),
}

/// Whether a character can start a name.
pub open spec fn starts_name(c: char) -> bool {
    ('a' <= c && c <= 'z') || ('A' <= c && c <= 'Z') || c == '_' || c == '$'
}

/// Whether a character opens a string.
pub open spec fn is_quote(c: char) -> bool {
    c == '"' || c == '\''
}

/// Whether a character belongs to a class.
pub open spec fn in_class(c: char, class: Class) -> bool {
    match class {
        Class::Space => c == ' ' || c == '\t' || c == '\n' || c == '\r',
        Class::Name => starts_name(c) || is_digit(c),
        Class::Digit => is_digit(c),
        Class::Plain(quote) => c != quote && c != '\\',
    }
}

/// The first position at or after `from` whose character is not of the
/// class; the end of `s` where there is none.
pub open spec fn run_end(s: Seq<char>, from: int, class: Class) -> int
    decreases s.len() - from,
{
    if from < 0 || from >= s.len() {
        from
    } else if in_class(s[from], class) {
        run_end(s, from + 1, class)
    } else {
        from
    }
}

/// A run ends at or after its start and within the text, and every character
/// of it is of the class.
pub proof fn lemma_run_end(s: Seq<char>, from: int, class: Class)
    requires
        0 <= from <= s.len(),
    ensures
        from <= run_end(s, from, class) <= s.len(),
        forall|i: int| from <= i < run_end(s, from, class) ==> in_class(#[trigger] s[i], class),
        run_end(s, from, class) < s.len() ==> !in_class(s[run_end(s, from, class)], class),
    decreases s.len() - from,
{
    if from < s.len() && in_class(s[from], class) {
        lemma_run_end(s, from + 1, class);
    }
}

/// A piece of text that a scan found, and the position after it.
pub ghost struct Found {
    pub text: Seq<char>,
    pub next: int,
}

/// The string that starts at `at`, without its quotes.
pub open spec fn scan_quoted(s: Seq<char>, at: int) -> Option<Found> {
    if 0 <= at < s.len() && is_quote(s[at]) {
        let close = run_end(s, at + 1, Class::Plain(s[at]));
        if close < s.len() && s[close] == s[at] {
            Some(Found { text: s.subrange(at + 1, close), next: close + 1 })
        } else {
            None
        }
    } else {
        None
    }
}

/// `s` without the zeros at its start.
pub open spec fn without_leading_zeros(s: Seq<char>) -> Seq<char>
    decreases s.len(),
{
    if s.len() > 0 && s.first() == '0' {
        without_leading_zeros(s.drop_first())
    } else {
        s
    }
}

/// `s` without the zeros at its end.
pub open spec fn without_trailing_zeros(s: Seq<char>) -> Seq<char>
    decreases s.len(),
{
    if s.len() > 0 && s.last() == '0' {
        without_trailing_zeros(s.drop_last())
    } else {
        s
    }
}

/// The decimal representation of a number that is written as a sign, if any,
/// digits, and digits after a point, if any: `-` where the number is written
/// with it; the digits before the point without the zeros at their start, or
/// `0` where none is left; and, where digits are left after the point once the
/// zeros at their end are gone, the point and those digits.
pub open spec fn plain_decimal(written: Seq<char>) -> Seq<char> {
    let signed = written.len() > 0 && (written[0] == '-' || written[0] == '+');
    let first: int = if signed {
        1
    } else {
        0
    };
    let point = run_end(written, first, Class::Digit);
    let whole = without_leading_zeros(written.subrange(first, point));
    let fraction = if point < written.len() {
        without_trailing_zeros(written.subrange(point + 1, written.len() as int))
    } else {
        Seq::empty()
    };
    (if written.len() > 0 && written[0] == '-' {
        "-"@
    } else {
        Seq::empty()
    }) + (if whole.len() == 0 {
        "0"@
    } else {
        whole
    }) + (if fraction.len() == 0 {
        Seq::empty()
    } else {
        "."@ + fraction
    })
}

/// The number that starts at `at`, in its decimal representation. It is
/// written as a sign, if any, and digits with at most one point among them,
/// before them or after them.
pub open spec fn scan_number(s: Seq<char>, at: int) -> Option<Found> {
    let first = if 0 <= at < s.len() && (s[at] == '-' || s[at] == '+') {
        at + 1
    } else {
        at
    };
    let whole = run_end(s, first, Class::Digit);
    let pointed = 0 <= whole < s.len() && s[whole] == '.';
    let end = if pointed {
        run_end(s, whole + 1, Class::Digit)
    } else {
        whole
    };
    let digits = if pointed {
        end - first - 1
    } else {
        end - first
    };
    if at < 0 || digits <= 0 {
        None
    } else {
        Some(Found { text: plain_decimal(s.subrange(at, end)), next: end })
    }
}

/// The key that starts at `at`: a name or a string.
pub open spec fn scan_key(s: Seq<char>, at: int) -> Option<Found> {
    if 0 <= at < s.len() && starts_name(s[at]) {
        let end = run_end(s, at + 1, Class::Name);
        Some(Found { text: s.subrange(at, end), next: end })
    } else {
        scan_quoted(s, at)
    }
}

/// The value that starts at `at`: a string or a number.
pub open spec fn scan_value(s: Seq<char>, at: int) -> Option<Found> {
    if 0 <= at < s.len() && is_quote(s[at]) {
        scan_quoted(s, at)
    } else {
        scan_number(s, at)
    }
}

/// The pair `key: value` that starts at `at`, and the position of the first
/// character after it that is not a space.
pub open spec fn scan_pair(s: Seq<char>, at: int) -> Option<((Seq<char>, Seq<char>), int)> {
    match scan_key(s, at) {
        None => None,
        Some(key) => {
            let colon = run_end(s, key.next, Class::Space);
            if colon < s.len() && s[colon] == ':' {
                match scan_value(s, run_end(s, colon + 1, Class::Space)) {
                    None => None,
                    Some(value) => Some(
                        ((key.text, value.text), run_end(s, value.next, Class::Space)),
                    ),
                }
            } else {
                None
            }
        },
    }
}

/// A pair ends after its start and within the text, and so do its parts.
pub proof fn lemma_scan_pair(s: Seq<char>, at: int)
    ensures
        scan_quoted(s, at) matches Some(found) ==> at < found.next <= s.len(),
        scan_number(s, at) matches Some(found) ==> at < found.next <= s.len(),
        scan_key(s, at) matches Some(found) ==> at < found.next <= s.len(),
        scan_value(s, at) matches Some(found) ==> at < found.next <= s.len(),
        scan_pair(s, at) matches Some((_, after)) ==> at < after <= s.len(),
{
    if 0 <= at < s.len() {
        lemma_run_end(s, at + 1, Class::Plain(s[at]));
        lemma_run_end(s, at + 1, Class::Name);
        lemma_run_end(s, at + 1, Class::Digit);
        lemma_run_end(s, at, Class::Digit);
        let whole = run_end(s, if s[at] == '-' || s[at] == '+' { at + 1 } else { at }, Class::Digit);
        if whole < s.len() {
            lemma_run_end(s, whole + 1, Class::Digit);
        }
        if let Some(key) = scan_key(s, at) {
            lemma_run_end(s, key.next, Class::Space);
            let colon = run_end(s, key.next, Class::Space);
            if colon < s.len() {
                lemma_run_end(s, colon + 1, Class::Space);
                let start = run_end(s, colon + 1, Class::Space);
                if start < s.len() {
                    lemma_run_end(s, start + 1, Class::Plain(s[start]));
                    lemma_run_end(s, start + 1, Class::Digit);
                    lemma_run_end(s, start, Class::Digit);
                    let whole = run_end(
                        s,
                        if s[start] == '-' || s[start] == '+' { start + 1 } else { start },
                        Class::Digit,
                    );
                    if whole < s.len() {
                        lemma_run_end(s, whole + 1, Class::Digit);
                    }
                }
                if let Some(value) = scan_value(s, start) {
                    lemma_run_end(s, value.next, Class::Space);
                }
            }
        }
    }
}

/// The pairs of an object whose first pair, or whose closing brace, is at
/// `at`, after the pairs `seen`; with them the position after the brace.
pub open spec fn scan_members(s: Seq<char>, at: int, seen: Seq<(Seq<char>, Seq<char>)>) -> Option<
    (Seq<(Seq<char>, Seq<char>)>, int),
>
    decreases s.len() - at,
{
    if at < 0 || at >= s.len() {
        None
    } else if s[at] == '}' {
        Some((seen, at + 1))
    } else {
        match scan_pair(s, at) {
            None => None,
            Some((pair, after)) => {
                if after < s.len() && s[after] == ',' {
                    proof {
                        lemma_scan_pair(s, at);
                        lemma_run_end(s, after + 1, Class::Space);
                    }
                    scan_members(s, run_end(s, after + 1, Class::Space), seen.push(pair))
                } else if after < s.len() && s[after] == '}' {
                    Some((seen.push(pair), after + 1))
                } else {
                    None
                }
            },
        }
    }
}

/// The pairs of the object literal that `body` consists of, in the order in
/// which they are written; `None` where `body` is no object literal.
pub open spec fn object_pairs(body: Seq<char>) -> Option<Seq<(Seq<char>, Seq<char>)>> {
    let open = run_end(body, 0, Class::Space);
    if open < body.len() && body[open] == '{' {
        match scan_members(body, run_end(body, open + 1, Class::Space), Seq::empty()) {
            None => None,
            Some((pairs, after)) => if run_end(body, after, Class::Space) == body.len() {
                Some(pairs)
            } else {
                None
            },
        }
    } else {
        None
    }
}

/// Whether a text has the shape of the literal: it begins with `Moment.from(`
/// and ends with `)`.
pub open spec fn moment_shape(text: Seq<char>) -> bool {
    "Moment.from("@.is_prefix_of(text) && text.last() == ')'
}

/// What is written between `Moment.from(` and the closing `)`.
pub open spec fn moment_body(text: Seq<char>) -> Seq<char> {
    text.subrange(12, text.len() - 1)
}

/// The parameter that a key of the literal stands for.
pub open spec fn moment_key(name: Seq<char>) -> Option<Seq<char>> {
    if name == "session_id"@ {
        Some("antithesis.debugging.session_id"@)
    } else if name == "input_hash"@ {
        Some("antithesis.debugging.input_hash"@)
    } else if name == "vtime"@ {
        Some("antithesis.debugging.vtime"@)
    } else {
        None
    }
}

/// The entries that the pairs give when taken from left to right, starting
/// from `entries`; the message for the first key that stands for no parameter.
pub open spec fn moment_entries(pairs: Seq<(Seq<char>, Seq<char>)>, entries: Entries) -> Result<
    Entries,
    Seq<char>,
>
    decreases pairs.len(),
{
    if pairs.len() == 0 {
        Ok(entries)
    } else {
        match moment_key(pairs[0].0) {
            None => Err("unrecognized Moment.from key: "@ + pairs[0].0),
            Some(key) => moment_entries(
                pairs.skip(1),
                entries.insert(key, Json::Text(pairs[0].1)),
            ),
        }
    }
}

/// What reading a text as a `Moment.from` literal gives: the entries, or the
/// message that says why there are none.
pub open spec fn read_moment(text: Seq<char>) -> Result<Entries, Seq<char>> {
    if !moment_shape(text) {
        Err("expected Moment.from(...)"@)
    } else {
        match object_pairs(moment_body(text)) {
            None => Err("malformed Moment.from object"@),
            Some(pairs) => moment_entries(pairs, Map::empty()),
        }
    }
}

/// The prefix, anything at all, and a closing parenthesis: such a text has the
/// shape of the literal.
pub proof fn lemma_literal_has_shape(body: Seq<char>)
    ensures
        moment_shape("Moment.from("@ + body + ")"@),
        moment_body("Moment.from("@ + body + ")"@) == body,
{
    reveal_strlit("Moment.from(");
    reveal_strlit(")");
    let text = "Moment.from("@ + body + ")"@;
    assert(text.subrange(0, 12) =~= "Moment.from("@);
    assert(text.last() == ')');
    assert(text.subrange(12, text.len() - 1) =~= body);
}

/// A text that does not begin with `M` has not the shape of the literal: no
/// JSON text has it, whatever it holds.
pub proof fn lemma_other_start_has_no_shape(text: Seq<char>)
    requires
        text.len() == 0 || text[0] != 'M',
    ensures
        !moment_shape(text),
        read_moment(text) is Err,
{
    reveal_strlit("Moment.from(");
    if "Moment.from("@.is_prefix_of(text) {
        assert(text.subrange(0, 12)[0] == 'M');
    }
}

/// Only a text that has the shape of the literal is read as one.
pub proof fn lemma_read_needs_shape(text: Seq<char>)
    ensures
        read_moment(text) is Ok ==> moment_shape(text),
{
}

/// Where a scan found a piece of text: from `from` up to `to`, with the scan
/// going on at `next`. What is written there is the text itself, or a number
/// whose decimal representation is the text.
struct Span {
    from: usize,
    to: usize,
    next: usize,
    number: bool,
}

impl Span {
    /// The text that this span stands for in `s`.
    spec fn text_in(self, s: Seq<char>) -> Seq<char> {
        if self.number {
            plain_decimal(s.subrange(self.from as int, self.to as int))
        } else {
            s.subrange(self.from as int, self.to as int)
        }
    }

    /// Whether this span, in `s`, is what a scan found.
    spec fn marks(self, s: Seq<char>, found: Found) -> bool {
        &&& self.from <= self.to <= s.len()
        &&& self.to <= self.next <= s.len()
        &&& self.text_in(s) == found.text
        &&& self.next == found.next
    }
}

/// The texts of a list of pairs.
pub open spec fn pair_texts(list: Seq<(String, String)>) -> Seq<(Seq<char>, Seq<char>)> {
    Seq::new(list.len(), |i: int| (list[i].0@, list[i].1@))
}

/// Whether a character belongs to a class.
fn class_has(c: char, class: &Class) -> (r: bool)
    ensures
        r == in_class(c, *class),
{
    match class {
        Class::Space => c == ' ' || c == '\t' || c == '\n' || c == '\r',
        Class::Name => ('a' <= c && c <= 'z') || ('A' <= c && c <= 'Z') || c == '_' || c == '$' || (
        '0' <= c && c <= '9'),
        Class::Digit => '0' <= c && c <= '9',
        Class::Plain(quote) => c != *quote && c != '\\',
    }
}

/// The first position at or after `from` whose character is not of the
/// class.
fn run_over(s: &Vec<char>, from: usize, class: &Class) -> (end: usize)
    requires
        from <= s.len(),
    ensures
        end == run_end(s@, from as int, *class),
        from <= end <= s.len(),
{
    let mut i: usize = from;
    while i < s.len() && class_has(s[i], class)
        invariant
            from <= i <= s.len(),
            run_end(s@, from as int, *class) == run_end(s@, i as int, *class),
        decreases s.len() - i,
    {
        i += 1;
    }
    i
}

/// The string that starts at `at`.
fn read_quoted(s: &Vec<char>, at: usize) -> (r: Option<Span>)
    requires
        at <= s.len(),
    ensures
        (match scan_quoted(s@, at as int) {
            Some(found) => r matches Some(span) && span.marks(s@, found) && !span.number,
            None => r is None,
        }),
{
    if at < s.len() && (s[at] == '"' || s[at] == '\'') {
        let close = run_over(s, at + 1, &Class::Plain(s[at]));
        if close < s.len() && s[close] == s[at] {
            Some(Span { from: at + 1, to: close, next: close + 1, number: false })
        } else {
            None
        }
    } else {
        None
    }
}

/// The number that starts at `at`.
fn read_number(s: &Vec<char>, at: usize) -> (r: Option<Span>)
    requires
        at <= s.len(),
    ensures
        (match scan_number(s@, at as int) {
            Some(found) => r matches Some(span) && span.marks(s@, found),
            None => r is None,
        }),
{
    let first = if at < s.len() && (s[at] == '-' || s[at] == '+') {
        at + 1
    } else {
        at
    };
    let whole = run_over(s, first, &Class::Digit);
    let pointed = whole < s.len() && s[whole] == '.';
    let end = if pointed {
        run_over(s, whole + 1, &Class::Digit)
    } else {
        whole
    };
    let digits = if pointed {
        end - first - 1
    } else {
        end - first
    };
    if digits == 0 {
        None
    } else {
        Some(Span { from: at, to: end, next: end, number: true })
    }
}

/// The decimal representation of a number as it is written.
fn write_plain_decimal(written: &str) -> (r: String)
    ensures
        r@ == plain_decimal(written@),
{
    let s = chars_of(written);
    let negative = s.len() > 0 && s[0] == '-';
    let first: usize = if s.len() > 0 && (s[0] == '-' || s[0] == '+') {
        1
    } else {
        0
    };
    let point = run_over(&s, first, &Class::Digit);
    let mut lead: usize = first;
    while lead < point && s[lead] == '0'
        invariant
            first <= lead <= point <= s.len(),
            without_leading_zeros(s@.subrange(first as int, point as int)) == without_leading_zeros(
                s@.subrange(lead as int, point as int),
            ),
        decreases point - lead,
    {
        assert(s@.subrange(lead as int, point as int).drop_first() =~= s@.subrange(
            lead + 1,
            point as int,
        ));
        lead += 1;
    }
    let mut out = if negative {
        String::from_str("-")
    } else {
        String::new()
    };
    if lead < point {
        out.append(written.substring_char(lead, point));
    } else {
        out.append("0");
    }
    if point < s.len() {
        let mut trail: usize = s.len();
        while trail > point + 1 && s[trail - 1] == '0'
            invariant
                point + 1 <= trail <= s.len(),
                without_trailing_zeros(s@.subrange(point + 1, s@.len() as int))
                    == without_trailing_zeros(s@.subrange(point + 1, trail as int)),
            decreases trail,
        {
            assert(s@.subrange(point + 1, trail as int).drop_last() =~= s@.subrange(
                point + 1,
                trail - 1,
            ));
            trail -= 1;
        }
        if trail > point + 1 {
            out.append(".");
            out.append(written.substring_char(point + 1, trail));
        }
    }
    assert(out@ =~= plain_decimal(written@));
    out
}

/// The key that starts at `at`.
fn read_key(s: &Vec<char>, at: usize) -> (r: Option<Span>)
    requires
        at <= s.len(),
    ensures
        (match scan_key(s@, at as int) {
            Some(found) => r matches Some(span) && span.marks(s@, found) && !span.number,
            None => r is None,
        }),
{
    if at < s.len() && (('a' <= s[at] && s[at] <= 'z') || ('A' <= s[at] && s[at] <= 'Z') || s[at]
        == '_' || s[at] == '$') {
        let end = run_over(s, at + 1, &Class::Name);
        Some(Span { from: at, to: end, next: end, number: false })
    } else {
        read_quoted(s, at)
    }
}

/// The value that starts at `at`.
fn read_value(s: &Vec<char>, at: usize) -> (r: Option<Span>)
    requires
        at <= s.len(),
    ensures
        (match scan_value(s@, at as int) {
            Some(found) => r matches Some(span) && span.marks(s@, found),
            None => r is None,
        }),
{
    if at < s.len() && (s[at] == '"' || s[at] == '\'') {
        read_quoted(s, at)
    } else {
        read_number(s, at)
    }
}

/// The pair that starts at `at`: where its key and its value are, and the
/// position of the first character after it that is not a space.
fn read_pair(s: &Vec<char>, at: usize) -> (r: Option<(Span, Span, usize)>)
    requires
        at <= s.len(),
    ensures
        (match scan_pair(s@, at as int) {
            Some((pair, after)) => r matches Some((key, value, next)) && next == after && at < next
                <= s.len() && key.from <= key.to <= s.len() && value.from <= value.to <= s.len()
                && !key.number && key.text_in(s@) == pair.0 && value.text_in(s@) == pair.1,
            None => r is None,
        }),
{
    proof {
        lemma_scan_pair(s@, at as int);
    }
    let key = match read_key(s, at) {
        Some(span) => span,
        None => return None,
    };
    let colon = run_over(s, key.next, &Class::Space);
    if !(colon < s.len() && s[colon] == ':') {
        return None;
    }
    let start = run_over(s, colon + 1, &Class::Space);
    let value = match read_value(s, start) {
        Some(span) => span,
        None => return None,
    };
    let next = run_over(s, value.next, &Class::Space);
    Some((key, value, next))
}

/// The pairs of an object whose first pair, or whose closing brace, is at
/// `start`, and the position after the brace.
fn read_members(body: &str, s: &Vec<char>, start: usize) -> (r: Option<(Vec<(String, String)>, usize)>)
    requires
        s@ == body@,
        start <= s.len(),
    ensures
        (match scan_members(s@, start as int, Seq::empty()) {
            Some((pairs, after)) => r matches Some((list, next)) && pair_texts(list@) == pairs
                && next == after && next <= s.len(),
            None => r is None,
        }),
{
    let mut list: Vec<(String, String)> = Vec::new();
    let mut at: usize = start;
    assert(pair_texts(list@) =~= Seq::empty());
    loop
        invariant
            s@ == body@,
            at <= s.len(),
            scan_members(s@, start as int, Seq::empty()) == scan_members(
                s@,
                at as int,
                pair_texts(list@),
            ),
        decreases s.len() - at,
    {
        if at >= s.len() {
            return None;
        }
        if s[at] == '}' {
            return Some((list, at + 1));
        }
        let (key, value, after) = match read_pair(s, at) {
            Some(found) => found,
            None => return None,
        };
        let ghost before = list@;
        let written = body.substring_char(value.from, value.to);
        let text = if value.number {
            write_plain_decimal(written)
        } else {
            String::from_str(written)
        };
        list.push((String::from_str(body.substring_char(key.from, key.to)), text));
        assert(pair_texts(list@) =~= pair_texts(before).push(scan_pair(s@, at as int).unwrap().0));
        if after < s.len() && s[after] == ',' {
            at = run_over(s, after + 1, &Class::Space);
        } else if after < s.len() && s[after] == '}' {
            return Some((list, after + 1));
        } else {
            return None;
        }
    }
}

/// The pairs of the object literal that `body` consists of.
fn read_object(body: &str) -> (r: Option<Vec<(String, String)>>)
    ensures
        (match object_pairs(body@) {
            Some(pairs) => r matches Some(list) && pair_texts(list@) == pairs,
            None => r is None,
        }),
{
    let s = chars_of(body);
    let open = run_over(&s, 0, &Class::Space);
    if !(open < s.len() && s[open] == '{') {
        return None;
    }
    let start = run_over(&s, open + 1, &Class::Space);
    match read_members(body, &s, start) {
        Some((list, after)) => {
            if run_over(&s, after, &Class::Space) == s.len() {
                Some(list)
            } else {
                None
            }
        },
        None => None,
    }
}

/// The parameter that a key of the literal stands for.
fn find_moment_key(name: &str) -> (r: Option<&'static str>)
    ensures
        (match moment_key(name@) {
            Some(key) => r matches Some(found) && found@ == key,
            None => r is None,
        }),
{
    if str_eq(name, "session_id") {
        Some("antithesis.debugging.session_id")
    } else if str_eq(name, "input_hash") {
        Some("antithesis.debugging.input_hash")
    } else if str_eq(name, "vtime") {
        Some("antithesis.debugging.vtime")
    } else {
        None
    }
}

/// Whether a text has the shape of the literal: it begins with `Moment.from(`
/// and ends with `)`. What stands between is not looked at.
pub fn is_moment_format(input: &str) -> (r: bool)
    ensures
        r == moment_shape(input@),
{
    let text = chars_of(input);
    let prefix = chars_of("Moment.from(");
    let begins = matches_at(&text, 0, &prefix);
    proof {
        reveal_strlit("Moment.from(");
    }
    begins && text.len() > 0 && text[text.len() - 1] == ')'
}

/// Reads a `Moment.from` literal into the parameters of a debugging session.
///
/// Fails where the text has not the shape of the literal, where what stands
/// between the parentheses is no object literal, and on the first key that
/// stands for no parameter.
pub fn parse(input: &str) -> (r: Result<Params, Error>)
    ensures
        (match read_moment(input@) {
            Ok(entries) => r matches Ok(params) && params@ == entries,
            Err(reason) => r matches Err(Error::InvalidArgs(text)) && text@ == reason,
        }),
{
    if !is_moment_format(input) {
        return Err(Error::InvalidArgs(String::from_str("expected Moment.from(...)")));
    }
    let length = input.unicode_len();
    proof {
        reveal_strlit("Moment.from(");
        assert(input@.subrange(0, 12)[11] == '(');
    }
    let body = input.substring_char(12, length - 1);
    let list = match read_object(body) {
        Some(list) => list,
        None => return Err(Error::InvalidArgs(String::from_str("malformed Moment.from object"))),
    };
    let ghost pairs = pair_texts(list@);
    let mut map = object_new();
    let mut i: usize = 0;
    assert(pairs.skip(0) =~= pairs);
    while i < list.len()
        invariant
            i <= list.len(),
            pairs == pair_texts(list@),
            object_model(map).dom().finite(),
            read_moment(input@) == moment_entries(pairs, Entries::empty()),
            moment_entries(pairs, Entries::empty()) == moment_entries(
                pairs.skip(i as int),
                object_model(map),
            ),
        decreases list.len() - i,
    {
        let name = list[i].0.as_str();
        let ghost rest = pairs.skip(i as int);
        assert(rest[0] == pairs[i as int]);
        assert(rest.skip(1) =~= pairs.skip(i + 1));
        assert(pairs[i as int] == (list@[i as int].0@, list@[i as int].1@));
        match find_moment_key(name) {
            Some(key) => {
                object_insert(&mut map, String::from_str(key), value_from_text(list[i].1.clone()));
            },
            None => {
                return Err(
                    Error::InvalidArgs(String::from_str("unrecognized Moment.from key: ").concat(name)),
                );
            },
        }
        i += 1;
    }
    Ok(Params::from_object(map))
}

} // verus!
