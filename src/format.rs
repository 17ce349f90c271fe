//! The ways a result can be shown, reading one from its name, and the
//! YAML-like text of a result.
use crate::result::StepResult;
use vstd::prelude::*;
use vstd::std_specs::iter::IteratorSpec;
use vstd::string::StringExecFns;

verus! {

/// How each result is shown.
#[derive(Clone, Copy, Debug, PartialEq, Eq, Structural)]
pub enum Format {
    Quiet,
    Yaml,
    Json,
    Wide,
}

/// The lower-case form of a string, as `str::to_lowercase` gives it.
pub uninterp spec fn lower_of(s: Seq<char>) -> Seq<char>;

/// Relies on `str::to_lowercase`: the result depends on the characters
/// alone.
#[verifier::external_body]
fn lowercase(s: &str) -> (r: String)
    ensures
        r@ == lower_of(s@),
{
    s.to_lowercase()
}

/// The format a lower-case name stands for.
pub open spec fn format_named(s: Seq<char>) -> Option<Format> {
    if s == "yaml"@ || s == "yml"@ {
        Some(Format::Yaml)
    } else if s == "none"@ || s == "quiet"@ {
        Some(Format::Quiet)
    } else if s == "json"@ {
        Some(Format::Json)
    } else if s == "wide"@ {
        Some(Format::Wide)
    } else {
        None
    }
}

impl Format {
    /// The format that an already lower-cased name stands for: "yaml" or
    /// "yml", "none" or "quiet", "json", "wide".
    pub fn from_lowered(name: &String) -> (r: Option<Format>)
        ensures
            r == format_named(name@),
    {
        if *name == String::from_str("yaml") || *name == String::from_str("yml") {
            Some(Format::Yaml)
        } else if *name == String::from_str("none") || *name == String::from_str("quiet") {
            Some(Format::Quiet)
        } else if *name == String::from_str("json") {
            Some(Format::Json)
        } else if *name == String::from_str("wide") {
            Some(Format::Wide)
        } else {
            None
        }
    }

    /// Reads a format from its name in any case; the error holds the name
    /// as given.
    pub fn parse(s: &str) -> (r: Result<Format, String>)
        ensures
            format_named(lower_of(s@)) matches Some(f) ==> r == Ok::<Format, String>(f),
            format_named(lower_of(s@)) is None ==> r is Err && r->Err_0@ == s@,
    {
        let lower = lowercase(s);
        match Format::from_lowered(&lower) {
            Some(f) => Ok(f),
            None => Err(String::from_str(s)),
        }
    }
}

impl std::str::FromStr for Format {
    type Err = String;

    fn from_str(s: &str) -> Result<Format, String> {
        Format::parse(s)
    }
}

/// The text of a boolean.
pub open spec fn bool_text(b: bool) -> Seq<char> {
    if b {
        "true"@
    } else {
        "false"@
    }
}

/// The text of a decimal digit.
pub open spec fn digit_text(d: nat) -> Seq<char> {
    if d == 0 {
        "0"@
    } else if d == 1 {
        "1"@
    } else if d == 2 {
        "2"@
    } else if d == 3 {
        "3"@
    } else if d == 4 {
        "4"@
    } else if d == 5 {
        "5"@
    } else if d == 6 {
        "6"@
    } else if d == 7 {
        "7"@
    } else if d == 8 {
        "8"@
    } else {
        "9"@
    }
}

/// The decimal text of `n`, without leading zeros.
pub open spec fn decimal(n: nat) -> Seq<char>
    decreases n,
{
    if n < 10 {
        digit_text(n)
    } else {
        decimal(n / 10) + digit_text(n % 10)
    }
}

/// `s` with four spaces after each line break, so that every line after
/// the first is indented under a YAML block.
pub open spec fn indented(s: Seq<char>) -> Seq<char>
    decreases s.len(),
{
    if s.len() == 0 {
        Seq::empty()
    } else {
        indented(s.drop_last()) + if s.last() == '\n' {
            "\n    "@
        } else {
            seq![s.last()]
        }
    }
}

/// An optional `key: value` line.
pub open spec fn optional_line(key: Seq<char>, v: Option<String>) -> Seq<char> {
    match v {
        Some(t) => key + t@ + "\n"@,
        None => Seq::empty(),
    }
}

/// The output line of a result: none for an empty output, a block for
/// one with line breaks, a plain line otherwise.
pub open spec fn output_text(output: Seq<char>) -> Seq<char> {
    if output.len() == 0 {
        Seq::empty()
    } else if output.contains('\n') {
        "  output: |\n    "@ + indented(output) + "\n"@
    } else {
        "  output: "@ + output + "\n"@
    }
}

/// The YAML-like text of a result: name, description when there is one,
/// pass, output when not empty, error when there is one, and the duration
/// in milliseconds, one per line.
pub open spec fn yaml_text(r: StepResult) -> Seq<char> {
    "- name: "@ + r.name@ + "\n"@
        + optional_line("  description: "@, r.description)
        + "  pass: "@ + bool_text(r.pass) + "\n"@
        + output_text(r.output@)
        + optional_line("  error: "@, r.error)
        + "  duration: "@ + decimal(r.duration as nat) + "ms\n"@
}

/// Relies on `String::push`: appends one character.
#[verifier::external_body]
fn push_char(s: &mut String, c: char)
    ensures
        final(s)@ == old(s)@.push(c),
{
    s.push(c);
}

fn push_decimal(s: &mut String, n: u64)
    ensures
        final(s)@ == old(s)@ + decimal(n as nat),
    decreases n,
{
    if n >= 10 {
        push_decimal(s, n / 10);
    }
    let d = n % 10;
    if d == 0 {
        s.append("0");
    } else if d == 1 {
        s.append("1");
    } else if d == 2 {
        s.append("2");
    } else if d == 3 {
        s.append("3");
    } else if d == 4 {
        s.append("4");
    } else if d == 5 {
        s.append("5");
    } else if d == 6 {
        s.append("6");
    } else if d == 7 {
        s.append("7");
    } else if d == 8 {
        s.append("8");
    } else {
        s.append("9");
    }
    proof {
        if n < 10 {
            assert(n as nat % 10 == n as nat);
        }
    }
}

/// The indented form of `text`, and whether it holds a line break.
fn indent(text: &str) -> (r: (String, bool))
    ensures
        r.0@ == indented(text@),
        r.1 == text@.contains('\n'),
{
    let mut out = String::new();
    let mut found = false;
    proof {
        vstd::string::axiom_spec_iter(text);
    }
    for c in iter: text.chars()
        invariant
            iter.seq() == text@,
            out@ == indented(text@.take(iter.index())),
            found == text@.take(iter.index()).contains('\n'),
    {
        let ghost done = text@.take(iter.index());
        let ghost next = text@.take(iter.index() + 1);
        proof {
            assert(next == done.push(c));
            assert(next.drop_last() == done);
        }
        if c == '\n' {
            out.append("\n    ");
            found = true;
        } else {
            push_char(&mut out, c);
        }
        proof {
            assert(next.contains('\n') == (done.contains('\n') || c == '\n')) by {
                if done.contains('\n') {
                    let k = choose|k: int| 0 <= k < done.len() && done[k] == '\n';
                    assert(next[k] == '\n');
                }
                if next.contains('\n') && c != '\n' {
                    let k = choose|k: int| 0 <= k < next.len() && next[k] == '\n';
                    assert(done[k] == '\n');
                }
                if c == '\n' {
                    assert(next[done.len() as int] == '\n');
                }
            }
        }
    }
    proof {
        assert(text@.take(text@.len() as int) == text@);
    }
    (out, found)
}

fn push_optional_line(m: &mut String, key: &str, v: &Option<String>)
    ensures
        final(m)@ == old(m)@ + optional_line(key@, *v),
{
    match v {
        Some(t) => {
            m.append(key);
            m.append(t.as_str());
            m.append("\n");
            assert(final(m)@ =~= old(m)@ + optional_line(key@, *v));
        },
        None => {
            assert(m@ =~= old(m)@ + optional_line(key@, *v));
        },
    }
}

fn push_bool(m: &mut String, b: bool)
    ensures
        final(m)@ == old(m)@ + bool_text(b),
{
    if b {
        m.append("true");
    } else {
        m.append("false");
    }
}

fn push_output(m: &mut String, output: &String)
    ensures
        final(m)@ == old(m)@ + output_text(output@),
{
    let (body, multiline) = indent(output.as_str());
    if output.as_str().unicode_len() == 0 {
        assert(m@ =~= old(m)@ + output_text(output@));
    } else if multiline {
        m.append("  output: |\n    ");
        m.append(body.as_str());
        m.append("\n");
        assert(m@ =~= old(m)@ + output_text(output@));
    } else {
        m.append("  output: ");
        m.append(output.as_str());
        m.append("\n");
        assert(m@ =~= old(m)@ + output_text(output@));
    }
}

/// The YAML-like text of `result`.
pub fn yaml_message(result: &StepResult) -> (r: String)
    ensures
        r@ == yaml_text(*result),
{
    let mut m = String::from_str("- name: ");
    m.append(result.name.as_str());
    m.append("\n");
    push_optional_line(&mut m, "  description: ", &result.description);
    m.append("  pass: ");
    push_bool(&mut m, result.pass);
    m.append("\n");
    push_output(&mut m, &result.output);
    push_optional_line(&mut m, "  error: ", &result.error);
    m.append("  duration: ");
    push_decimal(&mut m, result.duration);
    m.append("ms\n");
    m
}

/// The quoted, escaped form of a string, as `{:?}` writes it.
pub uninterp spec fn debug_of(s: Seq<char>) -> Seq<char>;

/// Relies on std's `Debug` for `str`: the string in double quotes, with
/// quotes, backslashes and control characters escaped; the result depends
/// on the characters alone.
#[verifier::external_body]
fn debug_quoted(s: &str) -> (r: String)
    ensures
        r@ == debug_of(s@),
{
    format!("{:?}", s)
}

/// The view of an optional string.
pub open spec fn option_view(v: Option<String>) -> Option<Seq<char>> {
    match v {
        Some(t) => Some(t@),
        None => None,
    }
}

/// The quoted form of an optional string.
pub open spec fn debug_some(v: Option<String>) -> Option<Seq<char>> {
    match v {
        Some(t) => Some(debug_of(t@)),
        None => None,
    }
}

/// An optional value as `{:?}` writes it, given its quoted text: `None`,
/// or `Some(...)` around it.
pub open spec fn option_text(v: Option<Seq<char>>) -> Seq<char> {
    match v {
        Some(t) => "Some("@ + t + ")"@,
        None => "None"@,
    }
}

/// The one-line text of a result, from its name, pass flag and duration
/// and the quoted texts of its description, output and error.
pub open spec fn wide_line_text(
    name: Seq<char>,
    description: Option<Seq<char>>,
    pass: bool,
    output: Seq<char>,
    error: Option<Seq<char>>,
    duration: nat,
) -> Seq<char> {
    "name="@ + name
        + " description="@ + option_text(description)
        + " pass="@ + bool_text(pass)
        + " output="@ + output
        + " error="@ + option_text(error)
        + " duration="@ + decimal(duration) + "ms"@
}

/// The one-line text of a result: every field as `key=value`, the
/// description, output and error quoted.
pub open spec fn wide_text(r: StepResult) -> Seq<char> {
    wide_line_text(
        r.name@,
        debug_some(r.description),
        r.pass,
        debug_of(r.output@),
        debug_some(r.error),
        r.duration as nat,
    )
}

fn push_option_text(m: &mut String, v: &Option<String>)
    ensures
        final(m)@ == old(m)@ + option_text(option_view(*v)),
{
    match v {
        Some(t) => {
            m.append("Some(");
            m.append(t.as_str());
            m.append(")");
            assert(final(m)@ =~= old(m)@ + option_text(option_view(*v)));
        },
        None => {
            m.append("None");
        },
    }
}

/// The one-line text of `result`, given the quoted texts of its
/// description, output and error.
pub fn wide_line(
    result: &StepResult,
    description: &Option<String>,
    output: &String,
    error: &Option<String>,
) -> (r: String)
    ensures
        r@ == wide_line_text(
            result.name@,
            option_view(*description),
            result.pass,
            output@,
            option_view(*error),
            result.duration as nat,
        ),
{
    let mut m = String::from_str("name=");
    m.append(result.name.as_str());
    m.append(" description=");
    push_option_text(&mut m, description);
    m.append(" pass=");
    push_bool(&mut m, result.pass);
    m.append(" output=");
    m.append(output.as_str());
    m.append(" error=");
    push_option_text(&mut m, error);
    m.append(" duration=");
    push_decimal(&mut m, result.duration);
    m.append("ms");
    m
}

fn quote_option(v: &Option<String>) -> (r: Option<String>)
    ensures
        option_view(r) == debug_some(*v),
{
    match v {
        Some(t) => Some(debug_quoted(t.as_str())),
        None => None,
    }
}

/// The one-line text of `result`.
pub fn wide_message(result: &StepResult) -> (r: String)
    ensures
        r@ == wide_text(*result),
{
    let description = quote_option(&result.description);
    let output = debug_quoted(result.output.as_str());
    let error = quote_option(&result.error);
    wide_line(result, &description, &output, &error)
}

} // verus!
