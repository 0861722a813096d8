//! Git history analytics: parsing `git log --numstat` output, aggregating
//! churn per file, author, date and language, and the analyses and reports
//! built on top of them.
use vstd::prelude::*;

pub mod text;
pub mod order;
pub mod strmap;
pub mod utils;
pub mod log;
pub mod log_render;
pub mod tally;
pub mod tally_totals;
pub mod rank;
pub mod report;
pub mod command_line;
pub mod exporters;
pub mod history;
pub mod cli;
pub mod cache;
pub mod commands;
pub mod models;
pub mod analytics;

pub use crate::log::parse_git_log_output;
pub use crate::tally::collect_metrics;

use crate::strmap::StrMap;
use crate::text::{chars_of, push_char, push_str, string_of};

verus! {

/// Where and how to query the history.
#[derive(Debug, Clone)]
pub struct QueryOptions {
    pub repo: String,
    pub author: Option<String>,
    pub since: Option<String>,
    pub until: Option<String>,
    pub branch: Option<String>,
    pub file_type: Option<String>,
}

impl Default for QueryOptions {
    /// The current directory, with no filter.
    fn default() -> (o: Self)
        ensures
            o.repo@ == seq!['.'],
            o.author is None,
            o.since is None,
            o.until is None,
            o.branch is None,
            o.file_type is None,
    {
        let mut repo = String::new();
        push_char(&mut repo, '.');
        QueryOptions { repo, author: None, since: None, until: None, branch: None, file_type: None }
    }
}

/// An optional string as plain characters.
pub open spec fn opt_chars(o: Option<String>) -> Option<Seq<char>> {
    match o {
        Some(s) => Some(s@),
        None => None,
    }
}

/// Query options as plain values.
pub struct QueryModel {
    pub repo: Seq<char>,
    pub author: Option<Seq<char>>,
    pub since: Option<Seq<char>>,
    pub until: Option<Seq<char>>,
    pub branch: Option<Seq<char>>,
    pub file_type: Option<Seq<char>>,
}

impl View for QueryOptions {
    type V = QueryModel;

    open spec fn view(&self) -> QueryModel {
        QueryModel {
            repo: self.repo@,
            author: opt_chars(self.author),
            since: opt_chars(self.since),
            until: opt_chars(self.until),
            branch: opt_chars(self.branch),
            file_type: opt_chars(self.file_type),
        }
    }
}

/// One file's line counts in one commit.
#[derive(Debug, Clone, PartialEq, Eq)]
pub struct FileChange {
    pub path: String,
    pub added: u64,
    pub deleted: u64,
}

/// One commit and the files it changed.
#[derive(Debug, Clone, PartialEq, Eq)]
pub struct CommitRecord {
    pub sha: String,
    pub author: String,
    pub date: String,
    pub file_changes: Vec<FileChange>,
}

/// A file change as plain values.
pub struct FileChangeView {
    pub path: Seq<char>,
    pub added: u64,
    pub deleted: u64,
}

/// A commit as plain values.
pub struct CommitView {
    pub sha: Seq<char>,
    pub author: Seq<char>,
    pub date: Seq<char>,
    pub file_changes: Seq<FileChangeView>,
}

impl View for FileChange {
    type V = FileChangeView;

    open spec fn view(&self) -> FileChangeView {
        FileChangeView { path: self.path@, added: self.added, deleted: self.deleted }
    }
}

impl View for CommitRecord {
    type V = CommitView;

    open spec fn view(&self) -> CommitView {
        CommitView {
            sha: self.sha@,
            author: self.author@,
            date: self.date@,
            file_changes: self.file_changes@.map_values(|c: FileChange| c@),
        }
    }
}

/// Per-author totals.
#[derive(Debug, Clone, Copy, PartialEq, Eq)]
pub struct ContributorStats {
    pub commits: u64,
    pub lines_added: u64,
    pub lines_deleted: u64,
}

impl Default for ContributorStats {
    /// All counts zero.
    fn default() -> (s: Self)
        ensures
            s.commits == 0 && s.lines_added == 0 && s.lines_deleted == 0,
    {
        ContributorStats { commits: 0, lines_added: 0, lines_deleted: 0 }
    }
}

/// Per-file totals.
#[derive(Debug, Clone, Copy, PartialEq, Eq)]
pub struct FileStats {
    pub modifications: u64,
    pub lines_added: u64,
    pub lines_deleted: u64,
}

impl Default for FileStats {
    /// All counts zero.
    fn default() -> (s: Self)
        ensures
            s.modifications == 0 && s.lines_added == 0 && s.lines_deleted == 0,
    {
        FileStats { modifications: 0, lines_added: 0, lines_deleted: 0 }
    }
}

/// Everything `collect_metrics` tallies.
#[derive(Debug)]
pub struct Metrics {
    pub total_commits: u64,
    pub total_lines_added: u64,
    pub total_lines_deleted: u64,
    /// Commits per date, in ascending date order.
    pub commit_frequency: StrMap<u64>,
    pub file_stats: StrMap<FileStats>,
    pub contributor_stats: StrMap<ContributorStats>,
    /// Churn (lines added plus deleted) per lower-cased file extension.
    pub language_distribution: StrMap<u64>,
}

impl Default for Metrics {
    /// No commit counted yet.
    fn default() -> (m: Self)
        ensures
            m.total_commits == 0,
            m.total_lines_added == 0,
            m.total_lines_deleted == 0,
            m.commit_frequency@.len() == 0,
            m.file_stats@.len() == 0,
            m.contributor_stats@.len() == 0,
            m.language_distribution@.len() == 0,
    {
        Metrics {
            total_commits: 0,
            total_lines_added: 0,
            total_lines_deleted: 0,
            commit_frequency: StrMap::new(),
            file_stats: StrMap::new(),
            contributor_stats: StrMap::new(),
            language_distribution: StrMap::new(),
        }
    }
}

/// `c` with ASCII upper-case letters turned to lower case.
pub open spec fn ascii_lower(c: char) -> char {
    if 'A' <= c <= 'Z' {
        ((c as u32) + 32) as char
    } else {
        c
    }
}

/// `s` with every ASCII upper-case letter turned to lower case
/// (`to_ascii_lowercase`).
pub open spec fn ascii_lower_seq(s: Seq<char>) -> Seq<char> {
    s.map_values(|c: char| ascii_lower(c))
}

/// The index of the last occurrence of `c` in `s`.
pub open spec fn last_index_of(s: Seq<char>, c: char) -> Option<int>
    decreases s.len(),
{
    if s.len() == 0 {
        None
    } else if s.last() == c {
        Some(s.len() - 1)
    } else {
        last_index_of(s.drop_last(), c)
    }
}

/// What follows the last `.` of a path (`rsplit_once('.')`), if it has one.
pub open spec fn extension(path: Seq<char>) -> Option<Seq<char>> {
    match last_index_of(path, '.') {
        Some(i) => Some(path.skip(i + 1)),
        None => None,
    }
}

/// `s` without its leading dots (`trim_start_matches('.')`).
pub open spec fn trim_leading_dots(s: Seq<char>) -> Seq<char>
    decreases s.len(),
{
    if s.len() > 0 && s[0] == '.' {
        trim_leading_dots(s.drop_first())
    } else {
        s
    }
}

/// The JSON escape of one character.
pub open spec fn escape_char(c: char) -> Seq<char> {
    if c == '"' {
        seq!['\\', '"']
    } else if c == '\\' {
        seq!['\\', '\\']
    } else if c == '\n' {
        seq!['\\', 'n']
    } else if c == '\r' {
        seq!['\\', 'r']
    } else if c == '\t' {
        seq!['\\', 't']
    } else {
        seq![c]
    }
}

/// `s` with quotes, backslashes, newlines, carriage returns and tabs escaped
/// as in a JSON string; every other character is kept.
pub open spec fn json_escaped(s: Seq<char>) -> Seq<char>
    decreases s.len(),
{
    if s.len() == 0 {
        Seq::empty()
    } else {
        json_escaped(s.drop_last()) + escape_char(s.last())
    }
}

/// Escapes a string for use inside a JSON string literal.
pub fn json_escape(input: &str) -> (escaped: String)
    ensures
        escaped@ == json_escaped(input@),
{
    let chars = chars_of(input);
    let mut escaped = String::new();
    let mut i: usize = 0;
    while i < chars.len()
        invariant
            i <= chars.len(),
            chars@ == input@,
            escaped@ == json_escaped(chars@.take(i as int)),
        decreases chars.len() - i,
    {
        let ch = chars[i];
        if ch == '"' {
            push_char(&mut escaped, '\\');
            push_char(&mut escaped, '"');
        } else if ch == '\\' {
            push_char(&mut escaped, '\\');
            push_char(&mut escaped, '\\');
        } else if ch == '\n' {
            push_char(&mut escaped, '\\');
            push_char(&mut escaped, 'n');
        } else if ch == '\r' {
            push_char(&mut escaped, '\\');
            push_char(&mut escaped, 'r');
        } else if ch == '\t' {
            push_char(&mut escaped, '\\');
            push_char(&mut escaped, 't');
        } else {
            push_char(&mut escaped, ch);
        }
        proof {
            let pre = chars@.take(i + 1);
            assert(pre.drop_last() =~= chars@.take(i as int));
            assert(pre.last() == ch);
            assert(escaped@ =~= json_escaped(pre));
        }
        i = i + 1;
    }
    assert(chars@.take(chars.len() as int) =~= chars@);
    escaped
}

/// The character a JSON two-character escape `\\e` stands for.
pub open spec fn json_escape_target(e: char) -> Option<char> {
    if e == '"' {
        Some('"')
    } else if e == '\\' {
        Some('\\')
    } else if e == '/' {
        Some('/')
    } else if e == 'b' {
        Some('\u{8}')
    } else if e == 'f' {
        Some('\u{c}')
    } else if e == 'n' {
        Some('\n')
    } else if e == 'r' {
        Some('\r')
    } else if e == 't' {
        Some('\t')
    } else {
        None
    }
}

/// A control character (below U+0020), which a JSON string must escape.
pub open spec fn is_control(c: char) -> bool {
    (c as u32) < 0x20
}

/// Reads the body of a JSON string literal (what stands between its
/// quotes): characters from U+0020 on other than `"` and `\\` stand for
/// themselves, and the escapes `\\"`, `\\\\`, `\\/`, `\\b`, `\\f`, `\\n`, `\\r`
/// and `\\t` for the character they name; anything else is not read
/// (`None`), the `\\u` escapes included.
pub open spec fn json_unescape(s: Seq<char>) -> Option<Seq<char>>
    decreases s.len(),
{
    if s.len() == 0 {
        Some(Seq::empty())
    } else if s[0] == '\\' {
        if s.len() < 2 {
            None
        } else {
            match json_escape_target(s[1]) {
                Some(c) => match json_unescape(s.skip(2)) {
                    Some(r) => Some(seq![c] + r),
                    None => None,
                },
                None => None,
            }
        }
    } else if s[0] == '"' || is_control(s[0]) {
        None
    } else {
        match json_unescape(s.skip(1)) {
            Some(r) => Some(seq![s[0]] + r),
            None => None,
        }
    }
}

/// Text that a JSON string can carry with `json_escape`: no control
/// character but newline, carriage return and tab.
pub open spec fn json_safe(s: Seq<char>) -> bool {
    forall|i: int| 0 <= i < s.len() ==> !is_control(#[trigger] s[i]) || s[i] == '\n' || s[i] == '\r' || s[i] == '\t'
}

/// Two bodies read one after the other read as their concatenation.
proof fn lemma_json_unescape_concat(x: Seq<char>, y: Seq<char>, u: Seq<char>, v: Seq<char>)
    requires
        json_unescape(x) == Some(u),
        json_unescape(y) == Some(v),
    ensures
        json_unescape(x + y) == Some(u + v),
    decreases x.len(),
{
    if x.len() == 0 {
        assert(x + y =~= y);
        assert(u + v =~= v);
    } else if x[0] == '\\' {
        let c = json_escape_target(x[1])->0;
        let u2 = json_unescape(x.skip(2))->0;
        lemma_json_unescape_concat(x.skip(2), y, u2, v);
        assert((x + y).skip(2) =~= x.skip(2) + y);
        assert((x + y)[0] == x[0] && (x + y)[1] == x[1]);
        assert(seq![c] + (u2 + v) =~= u + v);
    } else {
        let u2 = json_unescape(x.skip(1))->0;
        lemma_json_unescape_concat(x.skip(1), y, u2, v);
        assert((x + y).skip(1) =~= x.skip(1) + y);
        assert((x + y)[0] == x[0]);
        assert(seq![x[0]] + (u2 + v) =~= u + v);
    }
}

/// What `json_escape` makes of a JSON-safe text reads back, between quotes,
/// as a JSON string whose value is that text.
pub proof fn law_json_escape_decodes(s: Seq<char>)
    requires
        json_safe(s),
    ensures
        json_unescape(json_escaped(s)) == Some(s),
    decreases s.len(),
{
    if s.len() > 0 {
        let c = s.last();
        assert(s.drop_last() =~= s.drop_last());
        assert(json_safe(s.drop_last())) by {
            assert forall|i: int| 0 <= i < s.drop_last().len() implies !is_control(#[trigger] s.drop_last()[i])
                || s.drop_last()[i] == '\n' || s.drop_last()[i] == '\r' || s.drop_last()[i] == '\t' by {
                assert(s.drop_last()[i] == s[i]);
            }
        }
        law_json_escape_decodes(s.drop_last());
        assert(!is_control(s[s.len() - 1]) || c == '\n' || c == '\r' || c == '\t');
        let e = escape_char(c);
        assert(json_unescape(e) == Some(seq![c])) by {
            let empty = Seq::<char>::empty();
            assert(json_unescape(empty) == Some(empty));
            assert(seq![c] + empty =~= seq![c]);
            if c == '"' || c == '\\' || c == '\n' || c == '\r' || c == '\t' {
                assert(e.len() == 2 && e[0] == '\\');
                assert(json_escape_target(e[1]) == Some(c));
                assert(e.skip(2) =~= empty);
            } else {
                assert(e =~= seq![c]);
                assert(!is_control(c));
                assert(e.skip(1) =~= empty);
            }
        }
        lemma_json_unescape_concat(json_escaped(s.drop_last()), e, s.drop_last(), seq![c]);
        assert(s.drop_last() + seq![c] =~= s);
    }
}

/// The lower-case form of an ASCII letter; other characters are unchanged.
fn lower_char(c: char) -> (r: char)
    ensures
        r == ascii_lower(c),
{
    if 'A' <= c && c <= 'Z' {
        ((c as u8) + 32) as char
    } else {
        c
    }
}

/// `v` with ASCII letters lower-cased.
pub(crate) fn lower_chars(v: &Vec<char>) -> (r: Vec<char>)
    ensures
        r@ == ascii_lower_seq(v@),
{
    let mut r: Vec<char> = Vec::new();
    let mut i: usize = 0;
    while i < v.len()
        invariant
            i <= v.len(),
            r@ == ascii_lower_seq(v@.take(i as int)),
        decreases v.len() - i,
    {
        r.push(lower_char(v[i]));
        assert(ascii_lower_seq(v@.take(i + 1)) =~= ascii_lower_seq(v@.take(i as int)).push(ascii_lower(v@[i as int])));
        i = i + 1;
    }
    assert(v@.take(v.len() as int) =~= v@);
    r
}

/// The index of the last occurrence of `c` in `v`.
pub(crate) fn last_index(v: &Vec<char>, c: char) -> (r: Option<usize>)
    ensures
        match r {
            Some(i) => i < v.len() && last_index_of(v@, c) == Some(i as int),
            None => last_index_of(v@, c) is None,
        },
{
    let mut k: usize = v.len();
    assert(v@.take(k as int) =~= v@);
    while k > 0
        invariant
            k <= v.len(),
            last_index_of(v@, c) == last_index_of(v@.take(k as int), c),
        decreases k,
    {
        let pre = Ghost(v@.take(k as int));
        if v[k - 1] == c {
            assert(pre@.last() == c);
            return Some(k - 1);
        }
        assert(pre@.drop_last() =~= v@.take(k - 1));
        k = k - 1;
    }
    None
}

/// The file-type filter in its canonical form: leading dots dropped, ASCII
/// letters lower-cased.
pub fn normalize_file_type(file_type: &str) -> (r: String)
    ensures
        r@ == ascii_lower_seq(trim_leading_dots(file_type@)),
{
    let v = chars_of(file_type);
    let mut start: usize = 0;
    assert(v@.skip(0) =~= v@);
    while start < v.len() && v[start] == '.'
        invariant
            start <= v.len(),
            trim_leading_dots(v@) == trim_leading_dots(v@.skip(start as int)),
        decreases v.len() - start,
    {
        assert(v@.skip(start as int).drop_first() =~= v@.skip(start + 1));
        start = start + 1;
    }
    assert(v@.skip(0) =~= v@);
    let rest = text::slice_chars(&v, start, v.len());
    assert(rest@ =~= v@.skip(start as int));
    string_of(&lower_chars(&rest))
}

/// Whether the path's extension equals `extension`, ignoring ASCII case; a
/// path without a `.` has none.
pub fn file_matches_extension(path: &str, extension: &str) -> (r: bool)
    ensures
        r == match crate::extension(path@) {
            Some(ext) => ascii_lower_seq(ext) == ascii_lower_seq(extension@),
            None => false,
        },
{
    let v = chars_of(path);
    match last_index(&v, '.') {
        Some(i) => {
            let ext = text::slice_chars(&v, i + 1, v.len());
            assert(ext@ =~= v@.skip(i + 1));
            let a = lower_chars(&ext);
            let b = lower_chars(&chars_of(extension));
            crate::order::compare_chars(&a, &b) == 0
        },
        None => false,
    }
}

/// The language a path is counted under: its lower-cased extension, or
/// `unknown` when it has none.
pub fn file_language(path: &str) -> (r: String)
    ensures
        r@ == match crate::extension(path@) {
            Some(ext) => ascii_lower_seq(ext),
            None => seq!['u', 'n', 'k', 'n', 'o', 'w', 'n'],
        },
{
    let v = chars_of(path);
    match last_index(&v, '.') {
        Some(i) => {
            let ext = text::slice_chars(&v, i + 1, v.len());
            assert(ext@ =~= v@.skip(i + 1));
            string_of(&lower_chars(&ext))
        },
        None => {
            let mut s = String::new();
            push_str(&mut s, "unknown");
            proof { reveal_strlit("unknown"); }
            assert(s@ =~= seq!['u', 'n', 'k', 'n', 'o', 'w', 'n']);
            s
        },
    }
}

} // verus!
