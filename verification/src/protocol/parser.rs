//! The inline command parser: one line of text in, one [`Command`] out.
//!
//! A line is trimmed of surrounding whitespace and cut at its first two
//! spaces into at most three parts: the command name, then its arguments
//! (the last part keeps any further spaces). The command name is matched
//! without regard to case.

use vstd::prelude::*;
use crate::error::{FerrumError, FerrumErrorView};

verus! {

/// A parsed client command.
#[derive(Debug, PartialEq)]
pub enum Command {
    /// SET key value
    SetKey { key: String, value: String },
    /// GET key
    Get { key: String },
    /// DEL key
    Del { key: String },
    /// PING (health check)
    Ping,
    /// Unknown or invalid command, holding the trimmed input line
    Unknown(String),
}

/// The abstract value of a [`Command`].
pub enum CommandView {
    SetKey { key: Seq<char>, value: Seq<char> },
    Get { key: Seq<char> },
    Del { key: Seq<char> },
    Ping,
    Unknown(Seq<char>),
}

impl View for Command {
    type V = CommandView;

    open spec fn view(&self) -> CommandView {
        match self {
            Command::SetKey { key, value } => CommandView::SetKey { key: key@, value: value@ },
            Command::Get { key } => CommandView::Get { key: key@ },
            Command::Del { key } => CommandView::Del { key: key@ },
            Command::Ping => CommandView::Ping,
            Command::Unknown(line) => CommandView::Unknown(line@),
        }
    }
}

/// The abstract value of a parse outcome.
pub open spec fn outcome_view(r: Result<Command, FerrumError>) -> Result<CommandView, FerrumErrorView> {
    match r {
        Ok(c) => Ok(c@),
        Err(e) => Err(e@),
    }
}

/// Unicode's `White_Space` property, which `char::is_whitespace` and
/// `str::trim` go by.
pub open spec fn is_white_space(c: char) -> bool {
    let u = c as u32;
    ||| 0x09 <= u <= 0x0d
    ||| u == 0x20
    ||| u == 0x85
    ||| u == 0xa0
    ||| u == 0x1680
    ||| 0x2000 <= u <= 0x200a
    ||| u == 0x2028
    ||| u == 0x2029
    ||| u == 0x202f
    ||| u == 0x205f
    ||| u == 0x3000
}

/// The index of the first character at or after `i` that is not white
/// space, or `s.len()` if there is none.
pub open spec fn first_non_white(s: Seq<char>, i: int) -> int
    decreases s.len() - i,
{
    if i >= s.len() {
        s.len() as int
    } else if is_white_space(s[i]) {
        first_non_white(s, i + 1)
    } else {
        i
    }
}

/// One past the index of the last character before `j` that is not white
/// space, or `0` if there is none.
pub open spec fn end_non_white(s: Seq<char>, j: int) -> int
    decreases j,
{
    if j <= 0 {
        0
    } else if is_white_space(s[j - 1]) {
        end_non_white(s, j - 1)
    } else {
        j
    }
}

/// `s` without its leading and trailing white space.
pub open spec fn trim(s: Seq<char>) -> Seq<char> {
    let start = first_non_white(s, 0);
    if start >= s.len() {
        Seq::empty()
    } else {
        s.subrange(start, end_non_white(s, s.len() as int))
    }
}

/// The index of the first space at or after `i`, or `s.len()` if there is
/// none.
pub open spec fn find_space(s: Seq<char>, i: int) -> int
    decreases s.len() - i,
{
    if i >= s.len() {
        s.len() as int
    } else if s[i] == ' ' {
        i
    } else {
        find_space(s, i + 1)
    }
}

/// The parts that `splitn(3, ' ')` yields: `line` cut at its first two
/// spaces, the last part keeping the rest of the line.
pub open spec fn split_parts(line: Seq<char>) -> Seq<Seq<char>> {
    let p = find_space(line, 0);
    if p >= line.len() {
        seq![line]
    } else {
        let q = find_space(line, p + 1);
        if q >= line.len() {
            seq![line.subrange(0, p), line.subrange(p + 1, line.len() as int)]
        } else {
            seq![
                line.subrange(0, p),
                line.subrange(p + 1, q),
                line.subrange(q + 1, line.len() as int),
            ]
        }
    }
}

/// What `str::to_uppercase` returns for a string: its Unicode uppercase
/// mapping.
pub uninterp spec fn unicode_uppercase(s: Seq<char>) -> Seq<char>;

/// `s` with `a`..`z` replaced by `A`..`Z` and every other character kept.
pub open spec fn ascii_uppercase(s: Seq<char>) -> Seq<char> {
    Seq::new(
        s.len(),
        |i: int|
            if 'a' <= s[i] && s[i] <= 'z' {
                ((s[i] as u32) - 32) as char
            } else {
                s[i]
            },
    )
}

/// The uppercase form of a command name: on ASCII text the Unicode mapping
/// is the ASCII one, so it is spelled out there.
pub open spec fn name_uppercase(name: Seq<char>) -> Seq<char> {
    if vstd::utf8::is_ascii_chars(name) {
        ascii_uppercase(name)
    } else {
        unicode_uppercase(name)
    }
}

/// The command that a line denotes, given its uppercased name, the trimmed
/// line, and its first and second arguments where present.
pub open spec fn classify(
    name: Seq<char>,
    line: Seq<char>,
    first: Option<Seq<char>>,
    second: Option<Seq<char>>,
) -> Result<CommandView, FerrumErrorView> {
    if name == "SET"@ {
        match (first, second) {
            (Some(key), Some(value)) => Ok(CommandView::SetKey { key, value }),
            _ => Err(FerrumErrorView::ParseError("wrong number of arguments for 'SET' command"@)),
        }
    } else if name == "GET"@ {
        match first {
            Some(key) => Ok(CommandView::Get { key }),
            None => Err(FerrumErrorView::ParseError("wrong number of arguments for 'GET' command"@)),
        }
    } else if name == "DEL"@ {
        match first {
            Some(key) => Ok(CommandView::Del { key }),
            None => Err(FerrumErrorView::ParseError("wrong number of arguments for 'DEL' command"@)),
        }
    } else if name == "PING"@ {
        Ok(CommandView::Ping)
    } else {
        Ok(CommandView::Unknown(line))
    }
}

/// The part at index `i`, if there is one.
pub open spec fn part(parts: Seq<Seq<char>>, i: int) -> Option<Seq<char>> {
    if i < parts.len() {
        Some(parts[i])
    } else {
        None
    }
}

/// The outcome of parsing `input`.
pub open spec fn parse_spec(input: Seq<char>) -> Result<CommandView, FerrumErrorView> {
    let line = trim(input);
    if line.len() == 0 {
        Err(FerrumErrorView::ParseError("empty command"@))
    } else {
        let parts = split_parts(line);
        classify(name_uppercase(parts[0]), line, part(parts, 1), part(parts, 2))
    }
}

/// The view of an optional string slice.
pub open spec fn opt_view(o: Option<&str>) -> Option<Seq<char>> {
    match o {
        Some(s) => Some(s@),
        None => None,
    }
}

/// Calls `str::to_uppercase`. The result is claimed to be the named mapping
/// `unicode_uppercase` of the argument's characters, and, on ASCII text, to
/// map `a`..`z` to `A`..`Z` and keep every other character (the Unicode
/// uppercase mapping of the ASCII range); the rest of the Unicode case
/// tables is not restated.
#[verifier::external_body]
fn to_uppercase(s: &str) -> (upper: String)
    ensures
        upper@ == unicode_uppercase(s@),
        vstd::utf8::is_ascii_chars(s@) ==> upper@ == ascii_uppercase(s@),
{
    s.to_uppercase()
}

/// The characters of `s`, in order.
fn chars_of(s: &str) -> (v: Vec<char>)
    ensures
        v@ == s@,
{
    let mut v: Vec<char> = Vec::new();
    for c in it: s.chars()
        invariant
            v@ == it.seq().take(it.index() as int),
    {
        v.push(c);
    }
    v
}

/// Whether `c` is white space (Unicode `White_Space`).
fn is_white_space_char(c: char) -> (b: bool)
    ensures
        b == is_white_space(c),
{
    let u = c as u32;
    (0x09 <= u && u <= 0x0d) || u == 0x20 || u == 0x85 || u == 0xa0 || u == 0x1680 || (0x2000 <= u
        && u <= 0x200a) || u == 0x2028 || u == 0x2029 || u == 0x202f || u == 0x205f || u == 0x3000
}

/// Whether two string slices hold the same characters.
fn same_text(a: &str, b: &str) -> (eq: bool)
    ensures
        eq == (a@ == b@),
{
    a.to_owned() == b.to_owned()
}

/// Decides the command for a line whose name has been uppercased. `first`
/// and `second` are the first and second arguments, where present.
pub fn classify_command(
    name: &str,
    line: &str,
    first: Option<&str>,
    second: Option<&str>,
) -> (r: Result<Command, FerrumError>)
    ensures
        outcome_view(r) == classify(name@, line@, opt_view(first), opt_view(second)),
{
    if same_text(name, "SET") {
        match (first, second) {
            (Some(key), Some(value)) => Ok(
                Command::SetKey { key: String::from_str(key), value: String::from_str(value) },
            ),
            _ => Err(
                FerrumError::ParseError(
                    String::from_str("wrong number of arguments for 'SET' command"),
                ),
            ),
        }
    } else if same_text(name, "GET") {
        match first {
            Some(key) => Ok(Command::Get { key: String::from_str(key) }),
            None => Err(
                FerrumError::ParseError(
                    String::from_str("wrong number of arguments for 'GET' command"),
                ),
            ),
        }
    } else if same_text(name, "DEL") {
        match first {
            Some(key) => Ok(Command::Del { key: String::from_str(key) }),
            None => Err(
                FerrumError::ParseError(
                    String::from_str("wrong number of arguments for 'DEL' command"),
                ),
            ),
        }
    } else if same_text(name, "PING") {
        Ok(Command::Ping)
    } else {
        Ok(Command::Unknown(String::from_str(line)))
    }
}

/// Parses one line of client input into a [`Command`].
///
/// The line is trimmed of surrounding white space and cut at its first two
/// spaces; the command name is matched without regard to case. An empty (or
/// all-white) line, and a `SET`, `GET` or `DEL` with too few arguments, are
/// parse errors; any other name gives [`Command::Unknown`] with the trimmed
/// line.
///
/// ```
/// use ferrum_kv::protocol::parser::{parse, Command};
///
/// let cmd = parse("SET name ferrum").unwrap();
/// assert_eq!(cmd, Command::SetKey { key: "name".to_string(), value: "ferrum".to_string() });
/// ```
pub fn parse(input: &str) -> (r: Result<Command, FerrumError>)
    ensures
        outcome_view(r) == parse_spec(input@),
{
    let chars = chars_of(input);
    let n = chars.len();
    let mut start: usize = 0;
    while start < n && is_white_space_char(chars[start])
        invariant
            start <= n,
            n == chars@.len(),
            first_non_white(chars@, 0) == first_non_white(chars@, start as int),
        decreases n - start,
    {
        start = start + 1;
    }
    if start == n {
        return Err(FerrumError::ParseError(String::from_str("empty command")));
    }
    let mut end: usize = n;
    while is_white_space_char(chars[end - 1])
        invariant
            start < end <= n,
            n == chars@.len(),
            !is_white_space(chars@[start as int]),
            end_non_white(chars@, n as int) == end_non_white(chars@, end as int),
        decreases end,
    {
        end = end - 1;
    }
    let line = input.substring_char(start, end);
    assert(line@ == trim(input@));

    let words = chars_of(line);
    let m = words.len();
    let mut p: usize = 0;
    while p < m && words[p] != ' '
        invariant
            p <= m,
            m == words@.len(),
            find_space(words@, 0) == find_space(words@, p as int),
        decreases m - p,
    {
        p = p + 1;
    }
    if p == m {
        let upper = to_uppercase(line);
        return classify_command(upper.as_str(), line, None, None);
    }
    let mut q: usize = p + 1;
    while q < m && words[q] != ' '
        invariant
            p < q <= m,
            m == words@.len(),
            find_space(words@, p + 1) == find_space(words@, q as int),
        decreases m - q,
    {
        q = q + 1;
    }
    let name = line.substring_char(0, p);
    let upper = to_uppercase(name);
    if q == m {
        let first = line.substring_char(p + 1, m);
        classify_command(upper.as_str(), line, Some(first), None)
    } else {
        let first = line.substring_char(p + 1, q);
        let second = line.substring_char(q + 1, m);
        classify_command(upper.as_str(), line, Some(first), Some(second))
    }
}

/// The reply text for a command's outcome: the message itself on success,
/// `ERR ` and the message for a parse error, `ERR ` and the error's text for
/// any other error.
pub open spec fn response_text(result: Result<Seq<char>, FerrumErrorView>) -> Seq<char> {
    match result {
        Ok(msg) => msg,
        Err(FerrumErrorView::ParseError(msg)) => "ERR "@ + msg,
        Err(e) => "ERR "@ + crate::error::error_text(e),
    }
}

/// The view of a command's textual outcome.
pub open spec fn result_text_view(result: Result<String, FerrumError>) -> Result<Seq<char>, FerrumErrorView> {
    match result {
        Ok(msg) => Ok(msg@),
        Err(e) => Err(e@),
    }
}

/// Formats a response string to send back to the client.
pub fn format_response(result: Result<String, FerrumError>) -> (text: String)
    ensures
        text@ == response_text(result_text_view(result)),
{
    match result {
        Ok(msg) => msg,
        Err(FerrumError::ParseError(msg)) => String::from_str("ERR ").concat(msg.as_str()),
        Err(e) => String::from_str("ERR ").concat(e.to_text().as_str()),
    }
}

// ── Laws ─────────────────────────────────────────────────────────────

/// `find_space(s, i)` is the first space at or after `i`, or `s.len()`.
proof fn lemma_find_space(s: Seq<char>, i: int)
    requires
        0 <= i <= s.len(),
    ensures
        i <= find_space(s, i) <= s.len(),
        find_space(s, i) < s.len() ==> s[find_space(s, i)] == ' ',
        forall|j: int| i <= j < find_space(s, i) ==> s[j] != ' ',
    decreases s.len() - i,
{
    if i < s.len() && s[i] != ' ' {
        lemma_find_space(s, i + 1);
    }
}

/// `first_non_white(s, i)` is the first character at or after `i` that is
/// not white space, or `s.len()`.
proof fn lemma_first_non_white(s: Seq<char>, i: int)
    requires
        0 <= i <= s.len(),
    ensures
        i <= first_non_white(s, i) <= s.len(),
        first_non_white(s, i) < s.len() ==> !is_white_space(s[first_non_white(s, i)]),
        forall|j: int| i <= j < first_non_white(s, i) ==> is_white_space(#[trigger] s[j]),
    decreases s.len() - i,
{
    if i < s.len() && is_white_space(s[i]) {
        lemma_first_non_white(s, i + 1);
    }
}

/// `end_non_white(s, j)` is one past the last character before `j` that is
/// not white space, or `0`.
proof fn lemma_end_non_white(s: Seq<char>, j: int)
    requires
        0 <= j <= s.len(),
    ensures
        0 <= end_non_white(s, j) <= j,
        end_non_white(s, j) > 0 ==> !is_white_space(s[end_non_white(s, j) - 1]),
        forall|m: int| end_non_white(s, j) <= m < j ==> is_white_space(#[trigger] s[m]),
    decreases j,
{
    if j > 0 && is_white_space(s[j - 1]) {
        lemma_end_non_white(s, j - 1);
    }
}

/// Whether every character of `s` is white space.
pub open spec fn all_white(s: Seq<char>) -> bool {
    forall|i: int| 0 <= i < s.len() ==> is_white_space(#[trigger] s[i])
}

/// Trimming ignores white space added around a line.
proof fn lemma_trim_padded(w1: Seq<char>, s: Seq<char>, w2: Seq<char>)
    requires
        all_white(w1),
        all_white(w2),
    ensures
        trim(w1 + s + w2) == trim(s),
{
    let t = w1 + s + w2;
    let o = w1.len() as int;
    lemma_first_non_white(s, 0);
    lemma_first_non_white(t, 0);
    lemma_end_non_white(s, s.len() as int);
    lemma_end_non_white(t, t.len() as int);
    let a = first_non_white(s, 0);
    let at = first_non_white(t, 0);
    let b = end_non_white(s, s.len() as int);
    let bt = end_non_white(t, t.len() as int);
    assert forall|k: int| 0 <= k < s.len() implies #[trigger] t[o + k] == s[k] by {}
    if a < s.len() {
        // The first non-white character of the padded line is that of `s`.
        assert(!is_white_space(t[o + a]));
        if at < o + a {
            if at < o {
                assert(t[at] == w1[at]);
            } else {
                assert(t[at] == s[at - o]);
            }
        }
        if at > o + a {
            assert(is_white_space(t[o + a]));
        }
        assert(at == o + a);
        // So is the last one.
        assert(b > a) by {
            if b <= a {
                assert(is_white_space(s[a]));
            }
        }
        assert(!is_white_space(t[o + b - 1]));
        if bt > o + b {
            let m = bt - 1;
            if m < o + s.len() {
                assert(t[m] == s[m - o]);
                assert(is_white_space(s[m - o]));
            } else {
                assert(t[m] == w2[m - o - s.len()]);
            }
        }
        if bt < o + b {
            assert(is_white_space(t[o + b - 1]));
        }
        assert(bt == o + b);
        assert(t.subrange(at, bt) =~= s.subrange(a, b));
    } else {
        assert forall|k: int| 0 <= k < t.len() implies is_white_space(#[trigger] t[k]) by {
            if k < o {
                assert(t[k] == w1[k]);
            } else if k < o + s.len() {
                assert(t[k] == s[k - o]);
            } else {
                assert(t[k] == w2[k - o - s.len()]);
            }
        }
        if at < t.len() {
            assert(is_white_space(t[at]));
        }
    }
}

/// White space around a line changes nothing: a line parses the same with
/// or without leading and trailing white space.
pub proof fn lemma_parse_ignores_surrounding_white_space(
    w1: Seq<char>,
    input: Seq<char>,
    w2: Seq<char>,
)
    requires
        all_white(w1),
        all_white(w2),
    ensures
        parse_spec(w1 + input + w2) == parse_spec(input),
{
    lemma_trim_padded(w1, input, w2);
}

/// The parts of a line put back together, with single spaces between them,
/// give the line; every part but the last is free of spaces.
proof fn lemma_split_parts(line: Seq<char>)
    ensures
        1 <= split_parts(line).len() <= 3,
        split_parts(line).len() == 1 ==> line == split_parts(line)[0],
        split_parts(line).len() == 2 ==> line == split_parts(line)[0] + seq![' ']
            + split_parts(line)[1],
        split_parts(line).len() == 3 ==> line == split_parts(line)[0] + seq![' ']
            + split_parts(line)[1] + seq![' '] + split_parts(line)[2],
        forall|k: int, j: int|
            0 <= k < split_parts(line).len() - 1 && 0 <= j < split_parts(line)[k].len()
                ==> split_parts(line)[k][j] != ' ',
        split_parts(line).len() < 3 ==> forall|j: int|
            0 <= j < split_parts(line).last().len() ==> split_parts(line).last()[j] != ' ',
{
    lemma_find_space(line, 0);
    let p = find_space(line, 0);
    let parts = split_parts(line);
    if p < line.len() {
        lemma_find_space(line, p + 1);
        let q = find_space(line, p + 1);
        if q < line.len() {
            assert(line =~= line.subrange(0, p) + seq![' '] + line.subrange(p + 1, q) + seq![' ']
                + line.subrange(q + 1, line.len() as int));
            assert forall|k: int, j: int|
                0 <= k < parts.len() - 1 && 0 <= j < parts[k].len() implies parts[k][j]
                != ' ' by {
                if k == 0 {
                    assert(parts[k][j] == line[j]);
                } else {
                    assert(parts[k][j] == line[p + 1 + j]);
                }
            }
        } else {
            assert(line =~= line.subrange(0, p) + seq![' '] + line.subrange(p + 1, line.len() as int));
            assert forall|j: int| 0 <= j < parts.last().len() implies parts.last()[j] != ' ' by {
                assert(parts.last()[j] == line[p + 1 + j]);
            }
            assert forall|k: int, j: int|
                0 <= k < parts.len() - 1 && 0 <= j < parts[k].len() implies parts[k][j]
                != ' ' by {
                assert(parts[k][j] == line[j]);
            }
        }
    }
}

/// A `SET` loses nothing of its line: the trimmed line is the command name,
/// a space, the key, a space and the value; neither the name nor the key
/// holds a space, while the value may.
pub proof fn lemma_set_splits_line(input: Seq<char>, key: Seq<char>, value: Seq<char>)
    requires
        parse_spec(input) == Ok::<CommandView, FerrumErrorView>(CommandView::SetKey { key, value }),
    ensures
        ({
            let name = split_parts(trim(input))[0];
            &&& trim(input) == name + seq![' '] + key + seq![' '] + value
            &&& forall|j: int| 0 <= j < name.len() ==> name[j] != ' '
            &&& forall|j: int| 0 <= j < key.len() ==> key[j] != ' '
        }),
{
    let line = trim(input);
    lemma_split_parts(line);
    let parts = split_parts(line);
    assert(parts.len() == 3);
    assert(parts[1] == key && parts[2] == value);
    assert forall|j: int| 0 <= j < parts[0].len() implies parts[0][j] != ' ' by {}
    assert forall|j: int| 0 <= j < key.len() implies key[j] != ' ' by {
        assert(parts[1][j] != ' ');
    }
}

/// A `GET` or `DEL` key is the second word of its line: the trimmed line
/// starts with the command name, a space and the key, and the key holds no
/// space.
pub proof fn lemma_key_is_second_word(input: Seq<char>, key: Seq<char>)
    requires
        parse_spec(input) == Ok::<CommandView, FerrumErrorView>(CommandView::Get { key })
            || parse_spec(input) == Ok::<CommandView, FerrumErrorView>(CommandView::Del { key }),
    ensures
        ({
            let name = split_parts(trim(input))[0];
            &&& (name + seq![' '] + key).is_prefix_of(trim(input))
            &&& forall|j: int| 0 <= j < key.len() ==> key[j] != ' '
        }),
{
    let line = trim(input);
    lemma_split_parts(line);
    let parts = split_parts(line);
    assert(parts.len() >= 2);
    assert(parts[1] == key);
    let head = parts[0] + seq![' '] + key;
    if parts.len() == 2 {
        assert(line =~= head);
        assert forall|j: int| 0 <= j < key.len() implies key[j] != ' ' by {
            assert(parts.last()[j] != ' ');
        }
    } else {
        assert(line.subrange(0, head.len() as int) =~= head);
        assert forall|j: int| 0 <= j < key.len() implies key[j] != ' ' by {
            assert(parts[1][j] != ' ');
        }
    }
}

/// The command name is matched without regard to case: two lines with the
/// same arguments whose names have the same uppercase form denote the same
/// recognised command.
pub proof fn lemma_command_name_case_insensitive(a: Seq<char>, b: Seq<char>)
    requires
        trim(a).len() > 0,
        trim(b).len() > 0,
        split_parts(trim(a)).drop_first() == split_parts(trim(b)).drop_first(),
        name_uppercase(split_parts(trim(a))[0]) == name_uppercase(split_parts(trim(b))[0]),
        name_uppercase(split_parts(trim(a))[0]) == "SET"@ || name_uppercase(
            split_parts(trim(a))[0],
        ) == "GET"@ || name_uppercase(split_parts(trim(a))[0]) == "DEL"@ || name_uppercase(
            split_parts(trim(a))[0],
        ) == "PING"@,
    ensures
        parse_spec(a) == parse_spec(b),
{
    let pa = split_parts(trim(a));
    let pb = split_parts(trim(b));
    lemma_split_parts(trim(a));
    lemma_split_parts(trim(b));
    assert(pa.drop_first().len() == pa.len() - 1);
    assert(pb.drop_first().len() == pb.len() - 1);
    assert(pa.len() == pb.len());
    assert(part(pa, 1) == part(pb, 1)) by {
        if pa.len() > 1 {
            assert(pa[1] == pa.drop_first()[0]);
            assert(pb[1] == pb.drop_first()[0]);
        }
    }
    assert(part(pa, 2) == part(pb, 2)) by {
        if pa.len() > 2 {
            assert(pa[2] == pa.drop_first()[1]);
            assert(pb[2] == pb.drop_first()[1]);
        }
    }
}

/// ASCII command names are matched without regard to case: two lines with
/// the same arguments whose ASCII names agree once `a`..`z` are capitalised
/// denote the same recognised command (so `set k v`, `Set k v` and
/// `SET k v` are one command).
pub proof fn lemma_ascii_command_name_case_insensitive(a: Seq<char>, b: Seq<char>)
    requires
        trim(a).len() > 0,
        trim(b).len() > 0,
        split_parts(trim(a)).drop_first() == split_parts(trim(b)).drop_first(),
        vstd::utf8::is_ascii_chars(split_parts(trim(a))[0]),
        vstd::utf8::is_ascii_chars(split_parts(trim(b))[0]),
        ascii_uppercase(split_parts(trim(a))[0]) == ascii_uppercase(split_parts(trim(b))[0]),
        ascii_uppercase(split_parts(trim(a))[0]) == "SET"@ || ascii_uppercase(
            split_parts(trim(a))[0],
        ) == "GET"@ || ascii_uppercase(split_parts(trim(a))[0]) == "DEL"@ || ascii_uppercase(
            split_parts(trim(a))[0],
        ) == "PING"@,
    ensures
        parse_spec(a) == parse_spec(b),
{
    lemma_command_name_case_insensitive(a, b);
}

/// Every error reply starts with `ERR `, and a successful reply is the
/// message itself.
pub proof fn lemma_error_replies_start_with_err(result: Result<Seq<char>, FerrumErrorView>)
    ensures
        match result {
            Ok(msg) => response_text(result) == msg,
            Err(_) => "ERR "@.is_prefix_of(response_text(result)),
        },
{
    match result {
        Ok(_) => {},
        Err(e) => {
            let tail = match e {
                FerrumErrorView::ParseError(msg) => msg,
                _ => crate::error::error_text(e),
            };
            assert(response_text(result) == "ERR "@ + tail);
            assert(("ERR "@ + tail).subrange(0, "ERR "@.len() as int) =~= "ERR "@);
        },
    }
}

/// The recognised command name decides the command: with `parts` the words
/// of the trimmed line and `name` the uppercase form of the first,
/// - `GET` (`DEL`) with a second word is `Get` (`Del`) of that word, and
///   without one an arity error for `GET` (`DEL`);
/// - `SET` with three parts is `SetKey` of the second and third, and with
///   fewer an arity error for `SET`;
/// - `PING` is `Ping`, whatever follows;
/// - any other name is `Unknown` of the whole trimmed line;
/// and an empty trimmed line is the `empty command` error.
pub proof fn lemma_name_decides_command(input: Seq<char>)
    ensures
        ({
            let line = trim(input);
            let parts = split_parts(line);
            let name = name_uppercase(parts[0]);
            let r = parse_spec(input);
            &&& line.len() == 0 ==> r == Err::<CommandView, FerrumErrorView>(
                FerrumErrorView::ParseError("empty command"@),
            )
            &&& line.len() > 0 && name == "GET"@ && parts.len() >= 2 ==> r == Ok::<
                CommandView,
                FerrumErrorView,
            >(CommandView::Get { key: parts[1] })
            &&& line.len() > 0 && name == "GET"@ && parts.len() < 2 ==> r == Err::<
                CommandView,
                FerrumErrorView,
            >(FerrumErrorView::ParseError("wrong number of arguments for 'GET' command"@))
            &&& line.len() > 0 && name == "DEL"@ && parts.len() >= 2 ==> r == Ok::<
                CommandView,
                FerrumErrorView,
            >(CommandView::Del { key: parts[1] })
            &&& line.len() > 0 && name == "DEL"@ && parts.len() < 2 ==> r == Err::<
                CommandView,
                FerrumErrorView,
            >(FerrumErrorView::ParseError("wrong number of arguments for 'DEL' command"@))
            &&& line.len() > 0 && name == "SET"@ && parts.len() == 3 ==> r == Ok::<
                CommandView,
                FerrumErrorView,
            >(CommandView::SetKey { key: parts[1], value: parts[2] })
            &&& line.len() > 0 && name == "SET"@ && parts.len() < 3 ==> r == Err::<
                CommandView,
                FerrumErrorView,
            >(FerrumErrorView::ParseError("wrong number of arguments for 'SET' command"@))
            &&& line.len() > 0 && name == "PING"@ ==> r == Ok::<CommandView, FerrumErrorView>(
                CommandView::Ping,
            )
            &&& line.len() > 0 && name != "GET"@ && name != "DEL"@ && name != "SET"@ && name
                != "PING"@ ==> r == Ok::<CommandView, FerrumErrorView>(CommandView::Unknown(line))
        }),
{
    reveal_strlit("GET");
    reveal_strlit("DEL");
    reveal_strlit("SET");
    reveal_strlit("PING");
    assert("GET"@[0] != "SET"@[0] && "GET"@[0] != "DEL"@[0] && "DEL"@[0] != "SET"@[0]);
    assert("GET"@ != "SET"@ && "GET"@ != "DEL"@ && "DEL"@ != "SET"@);
    assert("PING"@.len() != "SET"@.len());
    assert("PING"@ != "SET"@ && "PING"@ != "GET"@ && "PING"@ != "DEL"@);
    let line = trim(input);
    if line.len() > 0 {
        lemma_split_parts(line);
    }
}

} // verus!
