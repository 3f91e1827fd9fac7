//! The parts of the built-in operations that compute: how the output of a
//! command is decoded, what a pattern replaces, what a template renders to,
//! and random numbers.

use vstd::prelude::*;
use vstd::string::StringExecFns;
use vstd::utf8::{decode_utf8, valid_utf8};
use crate::error::PipelineError;
use crate::table::{get, table_map};
use crate::text::{chars_of, push_char, spells, string_from_chars};

verus! {

/// Whether `text` starts with `prefix`.
pub open spec fn starts_with(text: Seq<char>, prefix: Seq<char>) -> bool {
    text.len() >= prefix.len() && text.subrange(0, prefix.len() as int) == prefix
}

/// Whether the standard output of the command may be encoded in GBK: the
/// commands that start with `ls` or `mkdir`.
pub open spec fn gbk_output(command: Seq<char>) -> bool {
    starts_with(command, "ls"@) || starts_with(command, "mkdir"@)
}

/// Whether the standard error of the command may be encoded in GBK: the
/// commands that start with `ls`, `mkdir` or `move`.
pub open spec fn gbk_err(command: Seq<char>) -> bool {
    starts_with(command, "ls"@) || starts_with(command, "mkdir"@) || starts_with(command, "move"@)
}

fn has_prefix(chars: &Vec<char>, prefix: &str) -> (b: bool)
    ensures
        b == starts_with(chars@, prefix@),
{
    let n = prefix.unicode_len();
    if chars.len() < n {
        false
    } else {
        spells(chars, 0, n, prefix)
    }
}

pub fn is_system_gbk_output_command(c: &str) -> (b: bool)
    ensures
        b == gbk_output(c@),
{
    let chars = chars_of(c);
    has_prefix(&chars, "ls") || has_prefix(&chars, "mkdir")
}

pub fn is_system_gbk_err_command(c: &str) -> (b: bool)
    ensures
        b == gbk_err(c@),
{
    let chars = chars_of(c);
    has_prefix(&chars, "ls") || has_prefix(&chars, "mkdir") || has_prefix(&chars, "move")
}

/// The lines as sequences of bytes.
pub open spec fn bytes_of(lines: Seq<Vec<u8>>) -> Seq<Seq<u8>> {
    Seq::new(lines.len(), |i: int| lines[i]@)
}

/// The first `upto` lines, each with a line end behind it, one behind the
/// other.
pub open spec fn ended(lines: Seq<Seq<u8>>, upto: int) -> Seq<u8>
    decreases upto,
{
    if upto <= 0 || upto > lines.len() {
        Seq::empty()
    } else {
        ended(lines, upto - 1) + lines[upto - 1] + seq![10u8]
    }
}

/// The lines of what a command has written: what stands between the line
/// ends. No line holds a line end; the lines with a line end behind each
/// are the bytes, where the bytes end with a line end or are none, and the
/// bytes with one line end more behind them, where they do not.
pub fn lines_of(bytes: &Vec<u8>) -> (lines: Vec<Vec<u8>>)
    ensures
        forall|i: int, j: int|
            0 <= i < lines.len() && 0 <= j < lines[i].len() ==> (#[trigger] lines[i]@[j]) != 10,
        ended(bytes_of(lines@), lines.len() as int) == (if bytes.len() == 0 || bytes[bytes.len() - 1]
            == 10 {
            bytes@
        } else {
            bytes@.push(10u8)
        }),
{
    let mut lines: Vec<Vec<u8>> = Vec::new();
    let mut line: Vec<u8> = Vec::new();
    let mut i: usize = 0;
    proof {
        assert(bytes@.subrange(0, 0) =~= Seq::<u8>::empty());
        assert(ended(bytes_of(lines@), 0) + line@ =~= Seq::<u8>::empty());
    }
    while i < bytes.len()
        invariant
            i <= bytes.len(),
            forall|a: int, b: int|
                0 <= a < lines.len() && 0 <= b < lines[a].len() ==> (#[trigger] lines[a]@[b]) != 10,
            forall|b: int| 0 <= b < line.len() ==> line[b] != 10,
            ended(bytes_of(lines@), lines.len() as int) + line@ == bytes@.subrange(0, i as int),
            line.len() == 0 <==> (i == 0 || bytes[i - 1] == 10),
        decreases bytes.len() - i,
    {
        let ghost before = lines@;
        let ghost current = line@;
        let ghost read = bytes@.subrange(0, i as int);
        if bytes[i] == 10 {
            lines.push(line);
            line = Vec::new();
            proof {
                assert(bytes_of(lines@) =~= bytes_of(before).push(current));
                lemma_ended_same(bytes_of(before), bytes_of(lines@), before.len() as int);
                assert(bytes@.subrange(0, i + 1) =~= read.push(10u8));
                assert(ended(bytes_of(lines@), lines.len() as int) + line@ =~= bytes@.subrange(0, i + 1));
            }
        } else {
            line.push(bytes[i]);
            proof {
                assert(bytes@.subrange(0, i + 1) =~= read.push(bytes[i as int]));
                assert(ended(bytes_of(lines@), lines.len() as int) + line@ =~= bytes@.subrange(0, i + 1));
            }
        }
        i += 1;
    }
    proof {
        assert(bytes@.subrange(0, bytes.len() as int) =~= bytes@);
    }
    if line.len() > 0 {
        let ghost before = lines@;
        let ghost current = line@;
        lines.push(line);
        proof {
            assert(bytes_of(lines@) =~= bytes_of(before).push(current));
            lemma_ended_same(bytes_of(before), bytes_of(lines@), before.len() as int);
            assert(ended(bytes_of(lines@), lines.len() as int) =~= bytes@.push(10u8));
        }
    } else {
        proof {
            assert(ended(bytes_of(lines@), lines.len() as int) + Seq::<u8>::empty() =~= ended(
                bytes_of(lines@),
                lines.len() as int,
            ));
        }
    }
    lines
}

/// What the first lines are with line ends depends on those lines alone.
pub proof fn lemma_ended_same(a: Seq<Seq<u8>>, b: Seq<Seq<u8>>, upto: int)
    requires
        0 <= upto <= a.len(),
        upto <= b.len(),
        forall|i: int| 0 <= i < upto ==> a[i] == b[i],
    ensures
        ended(a, upto) == ended(b, upto),
    decreases upto,
{
    if upto > 0 {
        lemma_ended_same(a, b, upto - 1);
    }
}

/// The text that bytes are in GBK, with the replacement character in the
/// place of what is malformed, and whether anything was malformed.
pub uninterp spec fn gbk_decoded(bytes: Seq<u8>) -> (Seq<char>, bool);

/// The text that bytes are in UTF-8, with the replacement character in the
/// place of what is malformed.
pub uninterp spec fn utf8_lossy(bytes: Seq<u8>) -> Seq<char>;

/// The longest input that is handed to the GBK decoder in one piece.
pub const GBK_LIMIT: usize = 0x1000_0000;

/// Decodes bytes as GBK.
///
/// Trusted: this is `encoding_rs::GBK.decode`, which decodes the whole input
/// (after a byte order mark, if there is one, in the encoding that the mark
/// names), replaces malformed sequences by the replacement character and
/// says whether there were any. It panics only where the size of its output
/// buffer, about three times the input, overflows; inputs up to `GBK_LIMIT`
/// are far from that.
#[verifier::external_body]
fn decode_gbk(bytes: &Vec<u8>) -> (r: (String, bool))
    requires
        bytes.len() <= GBK_LIMIT,
    ensures
        (r.0@, r.1) == gbk_decoded(bytes@),
{
    let (text, _, malformed) = encoding_rs::GBK.decode(bytes.as_slice());
    (text.into_owned(), malformed)
}

/// Decodes bytes as UTF-8.
///
/// Trusted: this is `String::from_utf8` of the standard library, which gives
/// the text where the bytes are valid UTF-8 and an error where they are not.
#[verifier::external_body]
fn decode_utf8_strict(bytes: &Vec<u8>) -> (r: Option<String>)
    ensures
        match r {
            Some(s) => valid_utf8(bytes@) && s@ == decode_utf8(bytes@),
            None => !valid_utf8(bytes@),
        },
{
    String::from_utf8(bytes.clone()).ok()
}

/// Decodes bytes as UTF-8, whatever they are.
///
/// Trusted: this is `String::from_utf8_lossy` of the standard library, which
/// replaces invalid sequences by the replacement character.
#[verifier::external_body]
fn decode_utf8_lossy(bytes: &Vec<u8>) -> (r: String)
    ensures
        r@ == utf8_lossy(bytes@),
{
    String::from_utf8_lossy(bytes.as_slice()).into_owned()
}

/// The text of a line that a command has written: the bytes as UTF-8 where
/// they are valid UTF-8; else as GBK where the command may write GBK (and
/// the line is no longer than `GBK_LIMIT`); else as UTF-8 with the invalid
/// parts replaced.
pub open spec fn line_text(bytes: Seq<u8>, gbk: bool) -> Seq<char> {
    if valid_utf8(bytes) {
        decode_utf8(bytes)
    } else if gbk && bytes.len() <= GBK_LIMIT {
        gbk_decoded(bytes).0
    } else {
        utf8_lossy(bytes)
    }
}

/// Decodes a line that a command has written.
pub fn decode_line(bytes: &Vec<u8>, gbk: bool) -> (s: String)
    ensures
        s@ == line_text(bytes@, gbk),
{
    match decode_utf8_strict(bytes) {
        Some(s) => s,
        None => {
            if gbk && bytes.len() <= GBK_LIMIT {
                decode_gbk(bytes).0
            } else {
                decode_utf8_lossy(bytes)
            }
        },
    }
}

/// The text in which every match of the pattern is replaced, or nothing
/// where the pattern is no regular expression.
pub uninterp spec fn regex_replaced(pattern: Seq<char>, text: Seq<char>, replacement: Seq<char>) -> Option<
    Seq<char>,
>;

#[verifier::external_type_specification]
#[verifier::external_body]
pub struct ExRegexError(regex::Error);

/// Replaces in `text` every match of `pattern` by `replacement`.
///
/// Trusted: this is `regex::Regex::new`, which compiles the pattern or gives
/// an error for a pattern that is invalid or too big, and
/// `Regex::replace_all`, which replaces all matches that do not overlap, in
/// the replacement expanding `$name` to the group of that name.
#[verifier::external_body]
fn replace_matches(pattern: &str, text: &str, replacement: &str) -> (r: Result<String, regex::Error>)
    ensures
        match r {
            Ok(s) => regex_replaced(pattern@, text@, replacement@) == Some(s@),
            Err(_) => regex_replaced(pattern@, text@, replacement@) is None,
        },
{
    let re = regex::Regex::new(pattern)?;
    Ok(re.replace_all(text, replacement).into_owned())
}

/// The message of an error of the pattern compiler.
///
/// Trusted: this is `to_string` on `regex::Error`. Nothing is claimed of the
/// text.
#[verifier::external_body]
fn pattern_error_text(e: &regex::Error) -> String {
    e.to_string()
}

/// Replaces in `text` every match of the regular expression `pattern` by
/// `replacement`. A pattern that is no regular expression gives
/// `HostError` with the message of the pattern compiler.
pub fn regex_replace_all(pattern: &str, text: &str, replacement: &str) -> (r: Result<
    String,
    PipelineError,
>)
    ensures
        match regex_replaced(pattern@, text@, replacement@) {
            Some(t) => r matches Ok(s) && s@ == t,
            None => r matches Err(PipelineError::HostError(_)),
        },
{
    match replace_matches(pattern, text, replacement) {
        Ok(s) => Ok(s),
        Err(e) => Err(PipelineError::HostError(pattern_error_text(&e))),
    }
}

/// A random integer between `low` and `high`, both included.
///
/// Trusted: this is `rand::Rng::gen_range` on the generator of the thread
/// with the range `low..=high`. It gives a value of the range and panics on
/// an empty range, which `low <= high` leaves out.
#[verifier::external_body]
fn random_between(low: i64, high: i64) -> (r: i64)
    requires
        low <= high,
    ensures
        low <= r <= high,
{
    rand::Rng::gen_range(&mut rand::thread_rng(), low..=high)
}

/// The random integer for the given bounds: between 0 and the one bound,
/// between the two bounds, or any integer without bounds. Bounds that leave
/// no integer between them give `UndefinedOperation`.
pub fn random_integer(low: Option<i64>, high: Option<i64>) -> (r: Result<i64, PipelineError>)
    ensures
        match (low, high) {
            (Some(a), Some(b)) => if a <= b {
                r matches Ok(v) && a <= v <= b
            } else {
                r matches Err(PipelineError::UndefinedOperation(_))
            },
            (Some(a), None) => if 0 <= a {
                r matches Ok(v) && 0 <= v <= a
            } else {
                r matches Err(PipelineError::UndefinedOperation(_))
            },
            _ => r is Ok,
        },
{
    let (a, b) = match (low, high) {
        (Some(a), Some(b)) => (a, b),
        (Some(a), None) => (0, a),
        _ => (i64::MIN, i64::MAX),
    };
    if a <= b {
        Ok(random_between(a, b))
    } else {
        Err(PipelineError::UndefinedOperation(String::from_str("empty range")))
    }
}

/// Whether a name in a template may start with the character.
pub open spec fn name_start(c: char) -> bool {
    ('a' <= c <= 'z') || ('A' <= c <= 'Z') || c == '_'
}

/// Whether a name in a template may go on with the character.
pub open spec fn name_part(c: char) -> bool {
    name_start(c) || ('0' <= c <= '9')
}

/// The end of the longest run of characters that go on a name, from `i`.
pub open spec fn name_end(text: Seq<char>, i: int) -> int
    decreases text.len() - i,
{
    if 0 <= i < text.len() && name_part(text[i]) {
        name_end(text, i + 1)
    } else {
        i
    }
}

/// The offset behind the placeholder `${name}` that starts at `i`, if one
/// starts there.
pub open spec fn placeholder_end(text: Seq<char>, i: int) -> Option<int> {
    if 0 <= i && i + 3 < text.len() && text[i] == '$' && text[i + 1] == '{' && name_start(text[i + 2])
        && name_end(text, i + 2) < text.len() && text[name_end(text, i + 2)] == '}' {
        Some(name_end(text, i + 2) + 1)
    } else {
        None
    }
}

pub proof fn lemma_name_end(text: Seq<char>, i: int)
    requires
        0 <= i <= text.len(),
    ensures
        i <= name_end(text, i) <= text.len(),
    decreases text.len() - i,
{
    if i < text.len() && name_part(text[i]) {
        lemma_name_end(text, i + 1);
    }
}

/// What a template renders to from offset `i` on: every placeholder
/// `${name}` is replaced by the value of `name`, found from the left, and
/// all other text stays. The name of the first placeholder without a value
/// is the error.
pub open spec fn rendered(text: Seq<char>, values: Map<Seq<char>, String>, i: int) -> Result<
    Seq<char>,
    Seq<char>,
>
    decreases text.len() - i,
{
    if i < 0 || i >= text.len() {
        Ok(Seq::empty())
    } else {
        match placeholder_end(text, i) {
            Some(end) => {
                let name = text.subrange(i + 2, end - 1);
                if values.contains_key(name) {
                    proof {
                        lemma_name_end(text, i + 2);
                    }
                    match rendered(text, values, end) {
                        Ok(rest) => Ok(values[name]@ + rest),
                        Err(missing) => Err(missing),
                    }
                } else {
                    Err(name)
                }
            },
            None => match rendered(text, values, i + 1) {
                Ok(rest) => Ok(seq![text[i]] + rest),
                Err(missing) => Err(missing),
            },
        }
    }
}

fn is_name_start(c: char) -> (b: bool)
    ensures
        b == name_start(c),
{
    ('a' <= c && c <= 'z') || ('A' <= c && c <= 'Z') || c == '_'
}

fn is_name_part(c: char) -> (b: bool)
    ensures
        b == name_part(c),
{
    is_name_start(c) || ('0' <= c && c <= '9')
}

fn find_placeholder_end(text: &Vec<char>, i: usize) -> (r: Option<usize>)
    requires
        i < text.len(),
    ensures
        match r {
            Some(end) => placeholder_end(text@, i as int) == Some(end as int) && i + 3 < end
                <= text.len(),
            None => placeholder_end(text@, i as int) is None,
        },
{
    if text.len() - i <= 3 || text[i] != '$' || text[i + 1] != '{' || !is_name_start(text[i + 2]) {
        return None;
    }
    let mut j: usize = i + 2;
    while j < text.len() && is_name_part(text[j])
        invariant
            i + 2 <= j <= text.len(),
            name_end(text@, i + 2) == name_end(text@, j as int),
        decreases text.len() - j,
    {
        j += 1;
    }
    proof {
        lemma_name_end(text@, i + 2);
        assert(name_end(text@, i + 2) >= i + 3);
    }
    if j < text.len() && text[j] == '}' {
        Some(j + 1)
    } else {
        None
    }
}

/// Renders a template: every placeholder `${name}` is replaced by the value
/// of `name` in `values`. A placeholder whose name has no value gives
/// `VariableUndefined` with the name.
pub fn render_template(template: &str, values: &Vec<(String, String)>) -> (r: Result<
    String,
    PipelineError,
>)
    ensures
        match rendered(template@, table_map(values@), 0) {
            Ok(t) => r matches Ok(s) && s@ == t,
            Err(missing) => r matches Err(PipelineError::VariableUndefined(name)) && name@
                == missing,
        },
{
    let text = chars_of(template);
    let ghost vals = table_map(values@);
    let mut out = String::new();
    let mut i: usize = 0;
    while i < text.len()
        invariant
            i <= text.len(),
            text@ == template@,
            vals == table_map(values@),
            rendered(text@, vals, 0) == (match rendered(text@, vals, i as int) {
                Ok(rest) => Ok::<Seq<char>, Seq<char>>(out@ + rest),
                Err(missing) => Err::<Seq<char>, Seq<char>>(missing),
            }),
        decreases text.len() - i,
    {
        match find_placeholder_end(&text, i) {
            Some(end) => {
                let name = string_from_chars(&text, i + 2, end - 1);
                match get(values, name.as_str()) {
                    Some(value) => {
                        proof {
                            let rest = rendered(text@, vals, end as int);
                            if rest is Ok {
                                assert(out@ + (value@ + rest->Ok_0) =~= (out@ + value@) + rest->Ok_0);
                            }
                        }
                        out.append(value.as_str());
                        i = end;
                    },
                    None => {
                        return Err(PipelineError::VariableUndefined(name));
                    },
                }
            },
            None => {
                proof {
                    let rest = rendered(text@, vals, i + 1);
                    if rest is Ok {
                        assert(out@ + (seq![text@[i as int]] + rest->Ok_0) =~= out@.push(
                            text@[i as int],
                        ) + rest->Ok_0);
                    }
                }
                push_char(&mut out, text[i]);
                i += 1;
            },
        }
    }
    proof {
        assert(out@ + Seq::<char>::empty() =~= out@);
    }
    Ok(out)
}

} // verus!
