//! Section detection in survey CSV text: which `区間N` sections a file
//! holds, and the decoding of file bytes (UTF-8, else Shift_JIS).

use vstd::prelude::*;

use crate::text::{string_of, string_views};

verus! {

/// Why survey rows could not be read.
#[derive(Debug)]
pub enum ParseError {
    NoData,
    InvalidFormat(String),
}

pub enum ParseErrorView {
    NoData,
    InvalidFormat(Seq<char>),
}

impl View for ParseError {
    type V = ParseErrorView;

    open spec fn view(&self) -> ParseErrorView {
        match self {
            ParseError::NoData => ParseErrorView::NoData,
            ParseError::InvalidFormat(m) => ParseErrorView::InvalidFormat(m@),
        }
    }
}

impl ParseError {
    /// The error's description.
    pub fn message(&self) -> (r: String)
        ensures
            self matches ParseError::NoData ==> r@ == "No data found"@,
            self matches ParseError::InvalidFormat(m) ==> r@ == "Invalid format: "@ + m@,
    {
        match self {
            ParseError::NoData => String::from_str("No data found"),
            ParseError::InvalidFormat(m) => {
                let mut r = String::from_str("Invalid format: ");
                r.append(m.as_str());
                r
            },
        }
    }
}

/// Capture group 1 of the first match of the regular expression `pattern`
/// in `text` (`None` without a match or for a pattern that does not compile).
pub uninterp spec fn regex_first_group(pattern: Seq<char>, text: Seq<char>) -> Option<Seq<char>>;

/// Capture group 1 of each successive match of `pattern` in `text` (the
/// empty text for a match without that group; none for a pattern that does
/// not compile).
pub uninterp spec fn regex_all_first_groups(pattern: Seq<char>, text: Seq<char>) -> Seq<Seq<char>>;

/// The characters that `regex::escape` escapes.
pub open spec fn is_regex_meta(c: char) -> bool {
    c == '\\' || c == '.' || c == '+' || c == '*' || c == '?' || c == '(' || c == ')' || c == '|'
        || c == '[' || c == ']' || c == '{' || c == '}' || c == '^' || c == '$' || c == '#' || c
        == '&' || c == '-' || c == '~'
}

/// `regex::escape`: each meta character preceded by a backslash.
pub open spec fn regex_escape(s: Seq<char>) -> Seq<char>
    decreases s.len(),
{
    if s.len() == 0 {
        Seq::empty()
    } else {
        let last = if is_regex_meta(s.last()) {
            seq!['\\', s.last()]
        } else {
            seq![s.last()]
        };
        regex_escape(s.drop_last()) + last
    }
}

pub open spec fn opt_string(o: Option<String>) -> Option<Seq<char>> {
    match o {
        Some(s) => Some(s@),
        None => None,
    }
}

/// Runs `regex::Regex::new(pattern)` and `Regex::captures` on `text`;
/// believed: the result is the name `regex_first_group` of the two texts.
#[verifier::external_body]
pub(crate) fn regex_first_capture(pattern: &str, text: &str) -> (r: Option<String>)
    ensures
        opt_string(r) == regex_first_group(pattern@, text@),
{
    let re = regex::Regex::new(pattern).ok()?;
    let caps = re.captures(text)?;
    caps.get(1).map(|m| m.as_str().to_string())
}

/// Runs `regex::Regex::new(pattern)` and `Regex::captures_iter` on `text`;
/// believed: the result is the name `regex_all_first_groups` of the texts.
#[verifier::external_body]
fn regex_all_captures(pattern: &str, text: &str) -> (r: Vec<String>)
    ensures
        string_views(r@) == regex_all_first_groups(pattern@, text@),
{
    match regex::Regex::new(pattern) {
        Ok(re) => re.captures_iter(text).map(
            |c| c.get(1).map_or(String::new(), |m| m.as_str().to_string()),
        ).collect(),
        Err(_) => Vec::new(),
    }
}

/// Runs `regex::escape`; believed: every regex meta character of `s` gets
/// a backslash before it, as the crate's source does.
#[verifier::external_body]
pub(crate) fn escape_regex(s: &str) -> (r: String)
    ensures
        r@ == regex_escape(s@),
{
    regex::escape(s)
}

/// The pattern of a section file name, `区間N.csv`.
pub open spec fn filename_pattern() -> Seq<char> {
    "^(区間\\d+)\\.csv$"@
}

/// The pattern of a section header line, `区間N,台形計算`.
pub open spec fn header_pattern() -> Seq<char> {
    "(?m)^(区間\\d+),台形計算"@
}

/// The section assumed when nothing names one.
pub open spec fn default_section() -> Seq<char> {
    "区間1"@
}

/// The sections, by priority: the one a file name names, else those the
/// header lines name, else `区間1`.
pub open spec fn spec_select_sections(
    filename_match: Option<Seq<char>>,
    body_matches: Seq<Seq<char>>,
) -> Seq<Seq<char>> {
    match filename_match {
        Some(n) => seq![n],
        None => if body_matches.len() > 0 {
            body_matches
        } else {
            seq![default_section()]
        },
    }
}

/// Chooses the sections from the name matched in the file name and the
/// names matched in the header lines.
pub fn select_sections(filename_match: Option<String>, body_matches: Vec<String>) -> (r: Vec<
    String,
>)
    ensures
        string_views(r@) == spec_select_sections(opt_string(filename_match), string_views(
            body_matches@,
        )),
{
    match filename_match {
        Some(n) => {
            let ghost nv = n@;
            let r = vec![n];
            assert(string_views(r@) =~= seq![nv]);
            r
        },
        None => {
            if body_matches.len() > 0 {
                body_matches
            } else {
                let r = vec![String::from_str("区間1")];
                assert(string_views(r@) =~= seq![default_section()]);
                r
            }
        },
    }
}

/// The sections named by a file name (`区間3.csv`), else by header lines
/// (`区間X,台形計算`) of the text, else `区間1`.
pub fn get_available_sections(text: &str, filename: &str) -> (r: Vec<String>)
    ensures
        string_views(r@) == spec_select_sections(
            regex_first_group(filename_pattern(), filename@),
            regex_all_first_groups(header_pattern(), text@),
        ),
{
    let fname = regex_first_capture("^(区間\\d+)\\.csv$", filename);
    if fname.is_some() {
        return select_sections(fname, Vec::new());
    }
    let body = regex_all_captures("(?m)^(区間\\d+),台形計算", text);
    select_sections(fname, body)
}

/// The sections of a text (see `get_available_sections`).
pub fn list_sections_text(text: &str, filename: &str) -> (r: Vec<String>)
    ensures
        string_views(r@) == spec_select_sections(
            regex_first_group(filename_pattern(), filename@),
            regex_all_first_groups(header_pattern(), text@),
        ),
{
    get_available_sections(text, filename)
}

/// What `encoding_rs::SHIFT_JIS.decode` makes of `bytes`: the decoded text
/// and whether malformed sequences were replaced.
pub uninterp spec fn shift_jis_decoding(bytes: Seq<u8>) -> (Seq<char>, bool);

/// Runs `encoding_rs::SHIFT_JIS.decode`; believed: the text and the error
/// flag are the name `shift_jis_decoding` of the bytes.
#[verifier::external_body]
fn decode_shift_jis(bytes: &[u8]) -> (r: (String, bool))
    ensures
        (r.0@, r.1) == shift_jis_decoding(bytes@),
{
    let (text, _, had_errors) = encoding_rs::SHIFT_JIS.decode(bytes);
    (text.into_owned(), had_errors)
}

/// Runs `std::str::from_utf8`; believed: it succeeds exactly on valid UTF-8
/// and then holds the decoded characters.
#[verifier::external_body]
fn decode_utf8(bytes: &[u8]) -> (r: Option<String>)
    ensures
        r is Some <==> vstd::utf8::valid_utf8(bytes@),
        r matches Some(s) ==> s@ == vstd::utf8::decode_utf8(bytes@),
{
    std::str::from_utf8(bytes).ok().map(|s| s.to_string())
}

/// The text of a file's bytes: UTF-8 when they are valid UTF-8, else
/// Shift_JIS, and `None` when Shift_JIS decoding meets malformed bytes.
pub open spec fn spec_file_text(bytes: Seq<u8>) -> Option<Seq<char>> {
    if vstd::utf8::valid_utf8(bytes) {
        Some(vstd::utf8::decode_utf8(bytes))
    } else if shift_jis_decoding(bytes).1 {
        None
    } else {
        Some(shift_jis_decoding(bytes).0)
    }
}

/// Decodes a file's bytes: UTF-8 first, then Shift_JIS without errors.
pub fn decode_file_text(bytes: &[u8]) -> (r: Option<String>)
    ensures
        opt_string(r) == spec_file_text(bytes@),
{
    match decode_utf8(bytes) {
        Some(s) => Some(s),
        None => {
            let (text, had_errors) = decode_shift_jis(bytes);
            if had_errors {
                None
            } else {
                Some(text)
            }
        },
    }
}

/// Decodes CSV bytes: UTF-8 first, else Shift_JIS (malformed bytes
/// replaced).
pub fn decode_csv_bytes(bytes: &[u8]) -> (r: String)
    ensures
        r@ == if vstd::utf8::valid_utf8(bytes@) {
            vstd::utf8::decode_utf8(bytes@)
        } else {
            shift_jis_decoding(bytes@).0
        },
{
    match decode_utf8(bytes) {
        Some(s) => s,
        None => decode_shift_jis(bytes).0,
    }
}

/// The text whose sections a file has: its decoded bytes, or the empty
/// text when it could not be read or decoded.
pub open spec fn readable_text(bytes: Option<Seq<u8>>) -> Seq<char> {
    match bytes {
        Some(b) => match spec_file_text(b) {
            Some(t) => t,
            None => Seq::empty(),
        },
        None => Seq::empty(),
    }
}

pub open spec fn opt_bytes(bytes: Option<&[u8]>) -> Option<Seq<u8>> {
    match bytes {
        Some(b) => Some(b@),
        None => None,
    }
}

/// The sections of a file from its name and its bytes (`None` when it could
/// not be read): those of its decoded text, or, when it cannot be read or
/// decoded, those its name alone gives.
pub fn get_available_sections_from_file(file_name: &str, bytes: Option<&[u8]>) -> (r: Vec<String>)
    ensures
        string_views(r@) == spec_select_sections(
            regex_first_group(filename_pattern(), file_name@),
            regex_all_first_groups(header_pattern(), readable_text(opt_bytes(bytes))),
        ),
{
    let text = match bytes {
        Some(b) => decode_file_text(b),
        None => None,
    };
    match text {
        Some(t) => {
            get_available_sections(t.as_str(), file_name)
        },
        None => {
            proof {
                reveal_strlit("");
            }
            assert(""@ =~= Seq::<char>::empty());
            get_available_sections("", file_name)
        },
    }
}

/// The sections of a file (see `get_available_sections_from_file`).
pub fn list_sections(file_name: &str, bytes: Option<&[u8]>) -> (r: Vec<String>)
    ensures
        string_views(r@) == spec_select_sections(
            regex_first_group(filename_pattern(), file_name@),
            regex_all_first_groups(header_pattern(), readable_text(opt_bytes(bytes))),
        ),
{
    get_available_sections_from_file(file_name, bytes)
}

} // verus!
