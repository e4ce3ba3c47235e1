//! The `witcherscript.toml` project manifest.

pub mod raw;

use vstd::prelude::*;
use crate::paths::PathBuf;
use crate::text::{Position, Range, Span};

verus! {

#[verifier::external_type_specification]
#[verifier::external_body]
pub struct ExVersion(semver::Version);

#[verifier::external_type_specification]
#[verifier::external_body]
pub struct ExRope(ropey::Rope);

/// The characters that a rope holds.
pub uninterp spec fn rope_chars(rope: ropey::Rope) -> Seq<char>;

/// A character that ends a line, as ropey reads text with its default
/// features: LF, VT, FF, CR, NEL, LINE SEPARATOR and PARAGRAPH SEPARATOR.
pub open spec fn is_line_break_char(c: char) -> bool {
    c == '\n' || c == '\u{b}' || c == '\u{c}' || c == '\r' || c == '\u{85}' || c == '\u{2028}'
        || c == '\u{2029}'
}

/// A line break ends with the character at `k`: a CR directly followed by
/// an LF is one break with it, which ends at the LF.
pub open spec fn ends_line_break(text: Seq<char>, k: int) -> bool {
    &&& 0 <= k < text.len()
    &&& is_line_break_char(text[k])
    &&& !(text[k] == '\r' && k + 1 < text.len() && text[k + 1] == '\n')
}

/// The number of line breaks that end before index `i`: the index of the
/// line that holds the character at `i`.
pub open spec fn line_breaks_before(text: Seq<char>, i: int) -> nat
    decreases i,
{
    if i <= 0 {
        0
    } else {
        line_breaks_before(text, i - 1) + if ends_line_break(text, i - 1) {
            1nat
        } else {
            0nat
        }
    }
}

/// Index `p` starts a line: it is the start of the text or follows a line
/// break.
pub open spec fn is_line_start(text: Seq<char>, p: int) -> bool {
    0 <= p <= text.len() && (p == 0 || ends_line_break(text, p - 1))
}

/// The start of the line that holds the character at `i`.
pub open spec fn line_start_before(text: Seq<char>, i: int) -> int
    decreases i,
{
    if i <= 0 {
        0
    } else if ends_line_break(text, i - 1) {
        i
    } else {
        line_start_before(text, i - 1)
    }
}

/// `ropey::Rope::from_str`: a rope holding the characters of `text`.
#[verifier::external_body]
fn rope_from_str(text: &str) -> (r: ropey::Rope)
    ensures
        rope_chars(r) == text@,
{
    ropey::Rope::from_str(text)
}

/// `ropey::Rope::char_to_line`: the number of line breaks before the
/// character, as ropey documents it. ropey panics past the end of the text,
/// which `requires` rules out.
#[verifier::external_body]
fn rope_line_of(rope: &ropey::Rope, char_idx: usize) -> (r: usize)
    requires
        char_idx <= rope_chars(*rope).len(),
    ensures
        r == line_breaks_before(rope_chars(*rope), char_idx as int),
{
    rope.char_to_line(char_idx)
}

/// `ropey::Rope::line_to_char`: the index where line `line_idx` starts, that
/// is the start of the text or the index after the line's preceding break.
/// ropey panics for a line past the last one plus one; `requires` admits
/// lines up to the line of the end of the text.
#[verifier::external_body]
fn rope_line_start(rope: &ropey::Rope, line_idx: usize) -> (r: usize)
    requires
        line_idx <= line_breaks_before(rope_chars(*rope), rope_chars(*rope).len() as int),
    ensures
        is_line_start(rope_chars(*rope), r as int),
        line_breaks_before(rope_chars(*rope), r as int) == line_idx,
{
    rope.line_to_char(line_idx)
}

/// Line breaks before an index never outnumber those before a later one.
pub proof fn lemma_line_breaks_monotone(text: Seq<char>, i: int, j: int)
    requires
        i <= j,
    ensures
        line_breaks_before(text, i) <= line_breaks_before(text, j),
    decreases j - i,
{
    if i < j {
        lemma_line_breaks_monotone(text, i, j - 1);
    }
}

/// The start of the line that holds `i` starts a line, is not after `i`,
/// and has as many line breaks before it as `i`.
pub proof fn lemma_line_start_before(text: Seq<char>, i: int)
    requires
        0 <= i <= text.len(),
    ensures
        is_line_start(text, line_start_before(text, i)),
        line_start_before(text, i) <= i,
        line_breaks_before(text, line_start_before(text, i)) == line_breaks_before(text, i),
    decreases i,
{
    if i > 0 && !ends_line_break(text, i - 1) {
        lemma_line_start_before(text, i - 1);
    }
}

/// Two line starts with as many line breaks before them are the same index.
pub proof fn lemma_line_start_unique(text: Seq<char>, p: int, q: int)
    requires
        is_line_start(text, p),
        is_line_start(text, q),
        line_breaks_before(text, p) == line_breaks_before(text, q),
    ensures
        p == q,
{
    if p < q {
        lemma_line_breaks_monotone(text, p, q - 1);
    } else if q < p {
        lemma_line_breaks_monotone(text, q, p - 1);
    }
}

/// Position of the character at `idx`: its line and its distance from the
/// start of that line.
pub open spec fn position_at(text: Seq<char>, idx: usize) -> Position {
    let line = line_breaks_before(text, idx as int) as usize;
    let character = (idx - line_start_before(text, idx as int)) as usize;
    Position { line: line as u32, character: character as u32 }
}

/// Range of the text that a span covers.
pub open spec fn range_of_span(text: Seq<char>, span: Span) -> Range {
    Range { start: position_at(text, span.start), end: position_at(text, span.end) }
}

pub open spec fn span_in_text(text: Seq<char>, span: Span) -> bool {
    span.start <= text.len() && span.end <= text.len()
}

fn position_of(rope: &ropey::Rope, idx: usize) -> (r: Position)
    requires
        idx <= rope_chars(*rope).len(),
    ensures
        r == position_at(rope_chars(*rope), idx),
{
    let line = rope_line_of(rope, idx);
    proof {
        lemma_line_breaks_monotone(rope_chars(*rope), idx as int, rope_chars(*rope).len() as int);
    }
    let line_start = rope_line_start(rope, line);
    proof {
        lemma_line_start_before(rope_chars(*rope), idx as int);
        lemma_line_start_unique(rope_chars(*rope), line_start as int, line_start_before(rope_chars(*rope), idx as int));
    }
    let ch: usize = idx - line_start;
    Position { line: line as u32, character: ch as u32 }
}

fn range_of(rope: &ropey::Rope, span: Span) -> (r: Range)
    requires
        span_in_text(rope_chars(*rope), span),
    ensures
        r == range_of_span(rope_chars(*rope), span),
{
    Range { start: position_of(rope, span.start), end: position_of(rope, span.end) }
}

pub open spec fn is_ascii_alphabetic(c: char) -> bool {
    ('a' <= c && c <= 'z') || ('A' <= c && c <= 'Z')
}

pub open spec fn is_ascii_alphanumeric(c: char) -> bool {
    is_ascii_alphabetic(c) || ('0' <= c && c <= '9')
}

/// A content name: not empty, made of ASCII letters, digits and `_`, and not
/// starting with a digit.
pub open spec fn valid_content_name(name: Seq<char>) -> bool {
    &&& name.len() > 0
    &&& (is_ascii_alphabetic(name[0]) || name[0] == '_')
    &&& forall|i: int| 0 <= i < name.len() ==> is_ascii_alphanumeric(#[trigger] name[i]) || name[i] == '_'
}

/// WitcherScript manifest file containing project metadata.
pub struct Manifest {
    /// Content metadata of this project
    pub content: Content,
    /// Dependencies needed by this project
    pub dependencies: Dependencies,
}

pub struct Content {
    /// Name of this project, for example SharedUtils
    pub name: String,
    pub name_range: Range,
    /// Short description of the project
    pub description: Option<String>,
    /// Version of this project, has to abide to semantic versioning
    pub version: semver::Version,
    /// Version(s) of the game this project is compatible with
    pub game_version: String,
    /// List of this project authors (optional)
    pub authors: Option<Vec<String>>,
    /// Relative path to the `scripts` directory. "./scripts" by default
    pub scripts_root: Option<PathBuf>,
}

/// A list of dependency entries
pub struct Dependencies(pub Vec<DependencyEntry>);

/// Dependency item as a key-value pair of dependency name and dependency source specifier
pub struct DependencyEntry {
    pub name: String,
    pub name_range: Range,
    pub value: DependencyValue,
    pub value_range: Range,
}

/// Value of the dependency entry
pub enum DependencyValue {
    /// Get the dependency from one of project repositories by name
    FromRepo(bool),
    /// Get the dependency from a specific location
    FromPath { path: PathBuf },
}

/// Failures of reading a manifest.
pub enum ManifestError {
    /// The file could not be read.
    Io { message: String },
    /// The text is not TOML of the manifest's shape.
    Toml { range: Range, msg: String },
    /// The `name` field in `[content]` table is invalid
    InvalidNameField { range: Range },
}

impl Dependencies {
    pub fn len(&self) -> (r: usize)
        ensures
            r == self.0@.len(),
    {
        self.0.len()
    }
}

/// Name of the manifest file in a project directory.
pub fn manifest_file_name() -> (r: &'static str)
    ensures
        r@ == seq!['w', 'i', 't', 'c', 'h', 'e', 'r', 's', 'c', 'r', 'i', 'p', 't', '.', 't', 'o', 'm', 'l'],
{
    let r = "witcherscript.toml";
    proof {
        reveal_strlit("witcherscript.toml");
    }
    r
}

/// The manifest that a successful read of `text` gives.
pub open spec fn manifest_from_raw_spec(raw: raw::Manifest, text: Seq<char>, m: Manifest) -> bool {
    &&& m.content.name@ == raw.content.name@
    &&& m.content.name_range == range_of_span(text, raw.content.name_span)
    &&& m.content.description == raw.content.description
    &&& m.content.version == raw.content.version
    &&& m.content.game_version@ == raw.content.game_version@
    &&& m.content.authors == raw.content.authors
    &&& m.content.scripts_root == raw.content.scripts_root
    &&& m.dependencies.0@.len() == raw.dependencies@.len()
    &&& forall|i: int|
        0 <= i < raw.dependencies@.len() ==> dependency_from_raw_spec(
            #[trigger] raw.dependencies@[i],
            text,
            m.dependencies.0@[i],
        )
}

pub open spec fn dependency_from_raw_spec(
    raw: raw::Dependency,
    text: Seq<char>,
    e: DependencyEntry,
) -> bool {
    &&& e.name@ == raw.name@
    &&& e.name_range == range_of_span(text, raw.name_span)
    &&& e.value_range == range_of_span(text, raw.value_span)
    &&& match (raw.value, e.value) {
        (raw::DependencyValue::FromRepo(a), DependencyValue::FromRepo(b)) => a == b,
        (raw::DependencyValue::FromPath { path: p }, DependencyValue::FromPath { path: q }) => p
            == q,
        _ => false,
    }
}

/// All spans of a read manifest lie in its text.
pub open spec fn raw_spans_in_text(raw: raw::Manifest, text: Seq<char>) -> bool {
    &&& span_in_text(text, raw.content.name_span)
    &&& forall|i: int|
        0 <= i < raw.dependencies@.len() ==> {
            &&& span_in_text(text, #[trigger] raw.dependencies@[i].name_span)
            &&& span_in_text(text, raw.dependencies@[i].value_span)
        }
}

/// The outcome of reading a manifest from a text, given what the TOML reader
/// made of it.
pub open spec fn manifest_read_spec(
    parsed: Result<raw::Manifest, raw::TomlError>,
    text: Seq<char>,
    r: Result<Manifest, ManifestError>,
) -> bool {
    match parsed {
        Err(e) => r == Err::<Manifest, ManifestError>(
            ManifestError::Toml {
                range: range_of_span(
                    text,
                    match e.span {
                        Some(s) => s,
                        None => Span { start: 0, end: 0 },
                    },
                ),
                msg: e.message,
            },
        ),
        Ok(raw) => if valid_content_name(raw.content.name@) {
            r is Ok && manifest_from_raw_spec(raw, text, r->Ok_0)
        } else {
            r == Err::<Manifest, ManifestError>(
                ManifestError::InvalidNameField {
                    range: range_of_span(text, raw.content.name_span),
                },
            )
        },
    }
}

pub open spec fn parsed_spans_in_text(
    parsed: Result<raw::Manifest, raw::TomlError>,
    text: Seq<char>,
) -> bool {
    match parsed {
        Err(e) => match e.span {
            Some(s) => span_in_text(text, s),
            None => true,
        },
        Ok(raw) => raw_spans_in_text(raw, text),
    }
}

impl Manifest {
    /// Returns true if the given name is a valid project content name. False otherwise.
    pub fn validate_content_name(name: &str) -> (r: bool)
        ensures
            r == valid_content_name(name@),
    {
        let n = name.unicode_len();
        if n == 0 {
            return false;
        }
        let first = name.get_char(0);
        if !(('a' <= first && first <= 'z') || ('A' <= first && first <= 'Z') || first == '_') {
            return false;
        }
        let mut i: usize = 0;
        while i < n
            invariant
                n == name@.len(),
                i <= n,
                forall|j: int|
                    0 <= j < i ==> is_ascii_alphanumeric(#[trigger] name@[j]) || name@[j] == '_',
            decreases n - i,
        {
            let c = name.get_char(i);
            if !(('a' <= c && c <= 'z') || ('A' <= c && c <= 'Z') || ('0' <= c && c <= '9')
                || c == '_') {
                return false;
            }
            i = i + 1;
        }
        true
    }

    /// Builds the manifest from what the TOML reader made of `text`, turning
    /// spans into line-and-character ranges.
    pub fn from_raw(raw: raw::Manifest, text: &str) -> (r: Manifest)
        requires
            raw_spans_in_text(raw, text@),
        ensures
            manifest_from_raw_spec(raw, text@, r),
    {
        let rope = rope_from_str(text);
        let ghost raw0 = raw;
        let raw::Manifest { content, dependencies } = raw;
        let name_range = range_of(&rope, content.name_span);
        let mut entries: Vec<DependencyEntry> = Vec::new();
        let mut deps = dependencies;
        let ghost all = deps@;
        let mut i: usize = 0;
        let n = deps.len();
        assert(deps@ =~= all.subrange(0, n as int));
        while i < n
            invariant
                n == all.len(),
                i <= n,
                deps@ =~= all.subrange(i as int, n as int),
                entries@.len() == i,
                rope_chars(rope) == text@,
                forall|j: int|
                    0 <= j < n ==> {
                        &&& span_in_text(text@, #[trigger] all[j].name_span)
                        &&& span_in_text(text@, all[j].value_span)
                    },
                forall|j: int|
                    0 <= j < i ==> dependency_from_raw_spec(
                        #[trigger] all[j],
                        text@,
                        entries@[j],
                    ),
            decreases n - i,
        {
            let d = deps.remove(0);
            assert(d == all[i as int]);
            let raw::Dependency { name, name_span, value, value_span } = d;
            let value = match value {
                raw::DependencyValue::FromRepo(b) => DependencyValue::FromRepo(b),
                raw::DependencyValue::FromPath { path } => DependencyValue::FromPath { path },
            };
            let entry = DependencyEntry {
                name,
                name_range: range_of(&rope, name_span),
                value,
                value_range: range_of(&rope, value_span),
            };
            entries.push(entry);
            i = i + 1;
            assert(deps@ =~= all.subrange(i as int, n as int));
        }
        Manifest {
            content: Content {
                name: content.name,
                name_range,
                description: content.description,
                version: content.version,
                game_version: content.game_version,
                authors: content.authors,
                scripts_root: content.scripts_root,
            },
            dependencies: Dependencies(entries),
        }
    }

    /// Reads a manifest: `parsed` is what the TOML reader made of `text`.
    /// A reader failure becomes [`ManifestError::Toml`] at the span it
    /// reports (the start of the text when it reports none); an invalid
    /// content name becomes [`ManifestError::InvalidNameField`].
    pub fn from_parsed(parsed: Result<raw::Manifest, raw::TomlError>, text: &str) -> (r: Result<Manifest, ManifestError>)
        requires
            parsed_spans_in_text(parsed, text@),
        ensures
            manifest_read_spec(parsed, text@, r),
    {
        match parsed {
            Err(e) => {
                let rope = rope_from_str(text);
                let span = match e.span {
                    Some(s) => s,
                    None => Span { start: 0, end: 0 },
                };
                Err(ManifestError::Toml { range: range_of(&rope, span), msg: e.message })
            },
            Ok(raw) => {
                if !Manifest::validate_content_name(raw.content.name.as_str()) {
                    let rope = rope_from_str(text);
                    return Err(ManifestError::InvalidNameField { range: range_of(&rope, raw.content.name_span) });
                }
                Ok(Manifest::from_raw(raw, text))
            },
        }
    }
}

} // verus!
