//! The display manager's configuration file: finding the recorded theme in
//! it and computing a new file body with another theme recorded.
//!
//! The file is line-oriented. A line whose trimmed text starts with `[` opens
//! a section; the theme is the value of the first `Current=` line inside a
//! `[Theme]` section.

use vstd::prelude::*;
use crate::text::{
    from_chars, lemma_lex_le_antisymmetric, lemma_lex_le_total, lemma_lex_le_transitive,
    lemma_unlines_around, lemma_unlines_concat,
    lemma_unlines_one, lex_le, lines, lines_view, push_line, push_lines, same_text, split_lines,
    starts_with, text_le, to_chars, trim, trim_lines, trim_slice, trimmed, trimmed_lines, unlines,
};
use vstd::slice::slice_subrange;
use vstd::string::StringExecFns;

verus! {

/// Path of the single-file configuration.
pub const SDDM_CONF: &'static str = "/etc/sddm.conf";

/// Path of the directory of configuration fragments.
pub const SDDM_CONF_D: &'static str = "/etc/sddm.conf.d";

/// Name of the fragment that is created when no existing one records a theme.
pub const NEW_FRAGMENT: &'static str = "theme.conf";

// ---------------------------------------------------------------------
// The format
// ---------------------------------------------------------------------

/// The header line of the section that records the theme.
pub open spec fn section_header() -> Seq<char> {
    "[Theme]"@
}

/// What a line that records the theme starts with.
pub open spec fn key_prefix() -> Seq<char> {
    "Current="@
}

/// The line that records theme `v`.
pub open spec fn key_line(v: Seq<char>) -> Seq<char> {
    key_prefix() + v
}

/// Whether the trimmed line `t` opens a section.
pub open spec fn is_header(t: Seq<char>) -> bool {
    t.len() > 0 && t[0] == '['
}

/// Whether the trimmed line `t` opens the section that records the theme.
pub open spec fn is_theme_header(t: Seq<char>) -> bool {
    t == section_header()
}

/// Whether the trimmed line `t` has the form of a line that records a theme.
pub open spec fn is_key_line(t: Seq<char>) -> bool {
    key_prefix().is_prefix_of(t)
}

/// The value that the trimmed key line `t` records.
pub open spec fn key_value(t: Seq<char>) -> Seq<char> {
    trim(t.skip(key_prefix().len() as int))
}

/// Whether line `i` of the trimmed lines `ts` lies inside a `[Theme]`
/// section: the nearest header above it is `[Theme]`.
pub open spec fn in_theme(ts: Seq<Seq<char>>, i: int) -> bool
    decreases i,
{
    if i <= 0 || i > ts.len() {
        false
    } else if is_header(ts[i - 1]) {
        is_theme_header(ts[i - 1])
    } else {
        in_theme(ts, i - 1)
    }
}

/// Whether line `i` of `ts` is a key line inside a `[Theme]` section.
pub open spec fn is_section_key(ts: Seq<Seq<char>>, i: int) -> bool {
    0 <= i < ts.len() && in_theme(ts, i) && is_key_line(ts[i])
}

/// Index of the first key line inside a `[Theme]` section at or after
/// `from`, or `ts.len()` when there is none.
pub open spec fn first_section_key(ts: Seq<Seq<char>>, from: int) -> int
    decreases ts.len() - from,
{
    if from >= ts.len() {
        ts.len() as int
    } else if is_section_key(ts, from) {
        from
    } else {
        first_section_key(ts, from + 1)
    }
}

/// Whether the document `doc` records a theme key inside a `[Theme]` section.
pub open spec fn records_theme(doc: Seq<char>) -> bool {
    first_section_key(trimmed_lines(doc), 0) < trimmed_lines(doc).len()
}

/// The theme that `doc` records: the trimmed value of the first key line
/// inside a `[Theme]` section, when there is such a line and its value is
/// not empty.
pub open spec fn recorded_theme(doc: Seq<char>) -> Option<Seq<char>> {
    let ts = trimmed_lines(doc);
    let k = first_section_key(ts, 0);
    if k < ts.len() && key_value(ts[k]).len() > 0 {
        Some(key_value(ts[k]))
    } else {
        None
    }
}

/// Index of the first `[Theme]` header at or after `from`, or `ts.len()`.
pub open spec fn first_theme_header(ts: Seq<Seq<char>>, from: int) -> int
    decreases ts.len() - from,
{
    if from >= ts.len() {
        ts.len() as int
    } else if is_theme_header(ts[from]) {
        from
    } else {
        first_theme_header(ts, from + 1)
    }
}

/// Index of the first header or key line at or after `from`, or `ts.len()`:
/// where the search for the key of a section that starts before `from` ends.
pub open spec fn section_stop(ts: Seq<Seq<char>>, from: int) -> int
    decreases ts.len() - from,
{
    if from >= ts.len() {
        ts.len() as int
    } else if is_header(ts[from]) || is_key_line(ts[from]) {
        from
    } else {
        section_stop(ts, from + 1)
    }
}

/// Where a patch touches a document of given lines.
pub enum PatchSite {
    /// The line at this index is a key line of the first `[Theme]` section:
    /// it is replaced.
    Replace(int),
    /// The first `[Theme]` section has no key line and ends before this
    /// index: the key line is inserted here.
    Insert(int),
    /// There are lines but no `[Theme]` section: a blank line, the header
    /// and the key line are appended.
    Append,
    /// There are no lines: the document becomes the header and the key line.
    Fresh,
}

/// The site for a document whose trimmed lines are `ts`.
pub open spec fn patch_site(ts: Seq<Seq<char>>) -> PatchSite {
    let h = first_theme_header(ts, 0);
    let j = section_stop(ts, h + 1);
    if ts.len() == 0 {
        PatchSite::Fresh
    } else if h >= ts.len() {
        PatchSite::Append
    } else if j < ts.len() && is_key_line(ts[j]) {
        PatchSite::Replace(j)
    } else {
        PatchSite::Insert(j)
    }
}

/// A patch site in a document that is held in memory.
enum Located {
    Replace(usize),
    Insert(usize),
    Append,
    Fresh,
}

impl View for Located {
    type V = PatchSite;

    closed spec fn view(&self) -> PatchSite {
        match *self {
            Located::Replace(j) => PatchSite::Replace(j as int),
            Located::Insert(j) => PatchSite::Insert(j as int),
            Located::Append => PatchSite::Append,
            Located::Fresh => PatchSite::Fresh,
        }
    }
}

/// The lines `ls` with theme `v` recorded.
pub open spec fn patched_lines(ls: Seq<Seq<char>>, v: Seq<char>) -> Seq<Seq<char>> {
    match patch_site(trimmed(ls)) {
        PatchSite::Replace(j) => ls.update(j, key_line(v)),
        PatchSite::Insert(j) => ls.insert(j, key_line(v)),
        PatchSite::Append => ls + seq![Seq::empty(), section_header(), key_line(v)],
        PatchSite::Fresh => seq![section_header(), key_line(v)],
    }
}

/// The document `doc` with theme `v` recorded: its lines, patched, each
/// followed by a line feed.
pub open spec fn patched_text(doc: Seq<char>, v: Seq<char>) -> Seq<char> {
    unlines(patched_lines(lines(doc), v))
}

// ---------------------------------------------------------------------
// Facts about the searches
// ---------------------------------------------------------------------

/// What `first_section_key` finds: the least index at or after `from` that
/// is a key line inside a `[Theme]` section.
pub proof fn lemma_first_section_key(ts: Seq<Seq<char>>, from: int)
    requires
        0 <= from <= ts.len(),
    ensures
        from <= first_section_key(ts, from) <= ts.len(),
        forall|m: int| from <= m < first_section_key(ts, from) ==> !is_section_key(ts, m),
        first_section_key(ts, from) < ts.len() ==> is_section_key(
            ts,
            first_section_key(ts, from),
        ),
    decreases ts.len() - from,
{
    if from < ts.len() && !is_section_key(ts, from) {
        lemma_first_section_key(ts, from + 1);
    }
}

/// What `first_theme_header` finds: the least index at or after `from` that
/// holds the `[Theme]` header.
pub proof fn lemma_first_theme_header(ts: Seq<Seq<char>>, from: int)
    requires
        0 <= from <= ts.len(),
    ensures
        from <= first_theme_header(ts, from) <= ts.len(),
        forall|m: int| from <= m < first_theme_header(ts, from) ==> !is_theme_header(#[trigger] ts[m]),
        first_theme_header(ts, from) < ts.len() ==> is_theme_header(
            ts[first_theme_header(ts, from)],
        ),
    decreases ts.len() - from,
{
    if from < ts.len() && !is_theme_header(ts[from]) {
        lemma_first_theme_header(ts, from + 1);
    }
}

/// What `section_stop` finds: the least index at or after `from` that holds
/// a header or a key line.
pub proof fn lemma_section_stop(ts: Seq<Seq<char>>, from: int)
    requires
        0 <= from <= ts.len(),
    ensures
        from <= section_stop(ts, from) <= ts.len(),
        forall|m: int|
            from <= m < section_stop(ts, from) ==> !is_header(#[trigger] ts[m]) && !is_key_line(
                ts[m],
            ),
        section_stop(ts, from) < ts.len() ==> is_header(ts[section_stop(ts, from)]) || is_key_line(
            ts[section_stop(ts, from)],
        ),
    decreases ts.len() - from,
{
    if from < ts.len() && !(is_header(ts[from]) || is_key_line(ts[from])) {
        lemma_section_stop(ts, from + 1);
    }
}

/// Whether `site` is a place in a document of `n` lines.
pub open spec fn site_within(site: PatchSite, n: nat) -> bool {
    match site {
        PatchSite::Replace(j) => 0 <= j < n,
        PatchSite::Insert(j) => 0 < j <= n,
        PatchSite::Append => n > 0,
        PatchSite::Fresh => n == 0,
    }
}

/// The site of a patch lies within the document.
pub proof fn lemma_patch_site_within(ts: Seq<Seq<char>>)
    ensures
        site_within(patch_site(ts), ts.len()),
{
    lemma_first_theme_header(ts, 0);
    let h = first_theme_header(ts, 0);
    if h < ts.len() {
        lemma_section_stop(ts, h + 1);
    }
}

// ---------------------------------------------------------------------
// Reading
// ---------------------------------------------------------------------

/// A key line opens no section.
pub proof fn lemma_key_line_is_no_header(t: Seq<char>)
    requires
        is_key_line(t),
    ensures
        !is_header(t),
        !is_theme_header(t),
{
    reveal_strlit("Current=");
    reveal_strlit("[Theme]");
    assert(t[0] == key_prefix()[0]);
}

/// The `[Theme]` header opens a section.
pub proof fn lemma_theme_header_is_header(t: Seq<char>)
    requires
        is_theme_header(t),
    ensures
        is_header(t),
{
    reveal_strlit("[Theme]");
}

/// Whether the trimmed line `t` opens a section.
fn line_is_header(t: &[char]) -> (b: bool)
    ensures
        b == is_header(t@),
{
    t.len() > 0 && t[0] == '['
}

/// Index of the first key line inside a `[Theme]` section among the trimmed
/// lines `ts`, or their number when there is none.
fn find_section_key(ts: &Vec<&[char]>) -> (k: usize)
    ensures
        k == first_section_key(lines_view(ts@), 0),
{
    let header = to_chars("[Theme]");
    let prefix = to_chars("Current=");
    let ghost tsv = lines_view(ts@);
    let mut inside = false;
    let mut i: usize = 0;
    while i < ts.len()
        invariant
            0 <= i <= ts.len(),
            tsv == lines_view(ts@),
            header@ == section_header(),
            prefix@ == key_prefix(),
            inside == in_theme(tsv, i as int),
            first_section_key(tsv, 0) == first_section_key(tsv, i as int),
        decreases ts.len() - i,
    {
        let t = ts[i];
        assert(t@ == tsv[i as int]);
        proof {
            if is_key_line(t@) {
                lemma_key_line_is_no_header(t@);
            }
        }
        if line_is_header(t) {
            inside = same_text(t, header.as_slice());
        } else if inside && starts_with(t, prefix.as_slice()) {
            return i;
        }
        i += 1;
    }
    i
}

/// Whether `content` holds a key line inside a `[Theme]` section.
pub fn has_theme_section(content: &str) -> (b: bool)
    ensures
        b == records_theme(content@),
{
    let chars = to_chars(content);
    let ls = split_lines(chars.as_slice());
    let ts = trim_lines(&ls);
    find_section_key(&ts) < ts.len()
}

/// The theme that `content` records: the trimmed value of the first
/// `Current=` line inside a `[Theme]` section, or `None` when there is no
/// such line or its value is empty.
pub fn parse_current_theme(content: &str) -> (theme: Option<String>)
    ensures
        match theme {
            Some(name) => recorded_theme(content@) == Some(name@),
            None => recorded_theme(content@) is None,
        },
{
    let chars = to_chars(content);
    let ls = split_lines(chars.as_slice());
    let ts = trim_lines(&ls);
    let k = find_section_key(&ts);
    if k < ts.len() {
        let t = ts[k];
        assert(t@ == lines_view(ts@)[k as int]);
        proof {
            reveal_strlit("Current=");
            lemma_first_section_key(lines_view(ts@), 0);
        }
        assert(key_prefix().len() == 8);
        let value = trim_slice(slice_subrange(t, 8, t.len()));
        assert(t@.subrange(8, t@.len() as int) =~= t@.skip(8));
        if value.len() > 0 {
            Some(from_chars(value))
        } else {
            None
        }
    } else {
        None
    }
}

// ---------------------------------------------------------------------
// Patching
// ---------------------------------------------------------------------

/// Where a patch touches the document whose trimmed lines are `ts`.
fn locate(ts: &Vec<&[char]>) -> (site: Located)
    ensures
        site@ == patch_site(lines_view(ts@)),
{
    let header = to_chars("[Theme]");
    let prefix = to_chars("Current=");
    let ghost tsv = lines_view(ts@);
    let n = ts.len();
    if n == 0 {
        return Located::Fresh;
    }
    let mut h: usize = 0;
    while h < n && !same_text(ts[h], header.as_slice())
        invariant
            0 <= h <= n == ts.len(),
            tsv == lines_view(ts@),
            header@ == section_header(),
            first_theme_header(tsv, 0) == first_theme_header(tsv, h as int),
        decreases n - h,
    {
        assert(ts@[h as int]@ == tsv[h as int]);
        h += 1;
    }
    if h >= n {
        return Located::Append;
    }
    assert(ts@[h as int]@ == tsv[h as int]);
    let mut j: usize = h + 1;
    while j < n && !line_is_header(ts[j]) && !starts_with(ts[j], prefix.as_slice())
        invariant
            h < j <= n == ts.len(),
            tsv == lines_view(ts@),
            prefix@ == key_prefix(),
            section_stop(tsv, h + 1) == section_stop(tsv, j as int),
        decreases n - j,
    {
        assert(ts@[j as int]@ == tsv[j as int]);
        j += 1;
    }
    if j < n {
        assert(ts@[j as int]@ == tsv[j as int]);
    }
    if j < n && starts_with(ts[j], prefix.as_slice()) {
        Located::Replace(j)
    } else {
        Located::Insert(j)
    }
}

/// Writes the lines before `at`, then `line`, then the lines from `resume`
/// on, each followed by a line feed.
fn write_around(out: &mut Vec<char>, ls: &Vec<&[char]>, at: usize, resume: usize, line: &[char])
    requires
        old(out)@.len() == 0,
        at <= resume <= ls.len(),
    ensures
        final(out)@ == unlines(
            lines_view(ls@).subrange(0, at as int) + seq![line@] + lines_view(ls@).subrange(
                resume as int,
                ls.len() as int,
            ),
        ),
{
    push_lines(out, ls, 0, at);
    push_line(out, line);
    push_lines(out, ls, resume, ls.len());
    proof {
        let all = lines_view(ls@);
        let a = all.subrange(0, at as int);
        let b = all.subrange(resume as int, ls.len() as int);
        lemma_unlines_around(a, line@, b);
        assert(out@ =~= unlines(a) + line@ + seq!['\n'] + unlines(b));
    }
}

/// The document `content` with theme `theme_name` recorded, as characters.
fn patch_chars(content: &[char], theme_name: &[char]) -> (out: Vec<char>)
    ensures
        out@ == patched_text(content@, theme_name@),
{
    let ls = split_lines(content);
    let ts = trim_lines(&ls);
    let header = to_chars("[Theme]");
    let mut new_line = to_chars("Current=");
    new_line.extend_from_slice(theme_name);
    assert(new_line@ =~= key_line(theme_name@));
    let ghost all = lines_view(ls@);
    let ghost kl = key_line(theme_name@);
    let n = ls.len();
    let mut out: Vec<char> = Vec::new();
    proof {
        lemma_patch_site_within(lines_view(ts@));
    }
    match locate(&ts) {
        Located::Replace(j) => {
            write_around(&mut out, &ls, j, j + 1, new_line.as_slice());
            assert(all.update(j as int, kl) =~= all.subrange(0, j as int) + seq![kl]
                + all.subrange(j + 1, n as int));
        },
        Located::Insert(j) => {
            write_around(&mut out, &ls, j, j, new_line.as_slice());
            assert(all.insert(j as int, kl) =~= all.subrange(0, j as int) + seq![kl]
                + all.subrange(j as int, n as int));
        },
        Located::Append => {
            push_lines(&mut out, &ls, 0, n);
            out.push('\n');
            push_line(&mut out, header.as_slice());
            push_line(&mut out, new_line.as_slice());
            proof {
                let blank = Seq::<char>::empty();
                let block = seq![blank, section_header(), kl];
                assert(all.subrange(0, n as int) =~= all);
                lemma_unlines_one(blank);
                lemma_unlines_one(section_header());
                lemma_unlines_one(kl);
                lemma_unlines_concat(seq![blank], seq![section_header()]);
                lemma_unlines_concat(seq![blank, section_header()], seq![kl]);
                assert(seq![blank] + seq![section_header()] =~= seq![blank, section_header()]);
                assert(seq![blank, section_header()] + seq![kl] =~= block);
                lemma_unlines_concat(all, block);
                assert(out@ =~= unlines(all) + unlines(block));
            }
        },
        Located::Fresh => {
            push_line(&mut out, header.as_slice());
            push_line(&mut out, new_line.as_slice());
            proof {
                lemma_unlines_one(section_header());
                lemma_unlines_one(kl);
                lemma_unlines_concat(seq![section_header()], seq![kl]);
                assert(seq![section_header()] + seq![kl] =~= seq![section_header(), kl]);
                assert(out@ =~= unlines(seq![section_header(), kl]));
            }
        },
    }
    out
}

/// A new body for the document `content`, with `theme_name` recorded as the
/// theme and every other line kept.
///
/// * The first `[Theme]` section has a `Current=` line: that line is
///   replaced, where it stands.
/// * It has none: the line is inserted where that section ends.
/// * There is no `[Theme]` section: a blank line, the header and the line
///   are appended.
/// * The document is empty: the result is the header and the line.
pub fn apply_theme_to_content(content: &str, theme_name: &str) -> (out: String)
    ensures
        out@ == patched_text(content@, theme_name@),
{
    let chars = to_chars(content);
    let name = to_chars(theme_name);
    let patched = patch_chars(chars.as_slice(), name.as_slice());
    from_chars(patched.as_slice())
}

// ---------------------------------------------------------------------
// The loaded configuration
// ---------------------------------------------------------------------

/// A configuration as it was loaded: where it lives, the theme it records,
/// and its text.
pub struct SddmConfig {
    /// Path that changes are written to.
    pub path: String,
    /// The theme that the text records, if any.
    pub current_theme: Option<String>,
    /// The text of the file; empty for a file that does not exist yet.
    pub raw_content: String,
}

/// What is to be written where, to record a theme.
pub struct WriteRequest {
    /// Path of the file to write.
    pub path: String,
    /// The whole new content of that file.
    pub content: String,
}

impl SddmConfig {
    /// The configuration at `path` with the text `content`, or with no text
    /// where `content` is `None` because the file does not exist yet. The
    /// current theme is the one that the text records.
    pub fn load(path: String, content: Option<String>) -> (config: SddmConfig)
        ensures
            config.path == path,
            config.raw_content@ == match content {
                Some(c) => c@,
                None => Seq::<char>::empty(),
            },
            match config.current_theme {
                Some(name) => recorded_theme(config.raw_content@) == Some(name@),
                None => recorded_theme(config.raw_content@) is None,
            },
    {
        let raw_content = match content {
            Some(c) => c,
            None => String::new(),
        };
        let current_theme = parse_current_theme(raw_content.as_str());
        SddmConfig { path, current_theme, raw_content }
    }

    /// A configuration with no text and no theme, aimed at the single-file
    /// path.
    pub fn empty() -> (config: SddmConfig)
        ensures
            config.path@ == SDDM_CONF@,
            config.current_theme is None,
            config.raw_content@ == Seq::<char>::empty(),
    {
        SddmConfig {
            path: String::from_str(SDDM_CONF),
            current_theme: None,
            raw_content: String::new(),
        }
    }

    /// What to write to record `theme_name`: the text of this configuration,
    /// patched, for the path of this configuration.
    pub fn write_theme(&self, theme_name: &str) -> (request: WriteRequest)
        ensures
            request.path@ == self.path@,
            request.content@ == patched_text(self.raw_content@, theme_name@),
    {
        WriteRequest {
            path: self.path.clone(),
            content: apply_theme_to_content(self.raw_content.as_str(), theme_name),
        }
    }
}

// ---------------------------------------------------------------------
// Choosing the file
// ---------------------------------------------------------------------

/// One file of the fragment directory.
pub struct Fragment {
    /// Name of the file inside the directory.
    pub name: String,
    /// Its text, where it could be read.
    pub content: Option<String>,
}

/// What the names of configuration fragments end in.
pub open spec fn fragment_suffix() -> Seq<char> {
    ".conf"@
}

/// Whether `name` is something in front of `.conf`.
pub open spec fn is_fragment_name(name: Seq<char>) -> bool {
    name.len() > fragment_suffix().len() && name.skip(name.len() - fragment_suffix().len())
        == fragment_suffix()
}

/// Whether the optional text records a theme.
pub open spec fn text_records_theme(content: Option<String>) -> bool {
    match content {
        Some(c) => records_theme(c@),
        None => false,
    }
}

/// Whether `f` is a fragment that records a theme.
pub open spec fn is_candidate(f: Fragment) -> bool {
    is_fragment_name(f.name@) && text_records_theme(f.content)
}

/// The path of the file `name` in the directory `dir`.
pub open spec fn path_in(dir: Seq<char>, name: Seq<char>) -> Seq<char> {
    dir + seq!['/'] + name
}

/// Whether `i` is the candidate among `fs` whose name comes first.
pub open spec fn is_first_candidate(fs: Seq<Fragment>, i: int) -> bool {
    &&& 0 <= i < fs.len()
    &&& is_candidate(fs[i])
    &&& forall|j: int| 0 <= j < fs.len() && is_candidate(#[trigger] fs[j]) ==> lex_le(fs[i].name@, fs[j].name@)
}

/// Whether `path` is the file that changes go to.
///
/// * The single file, where it records a theme.
/// * Else, where there is a fragment directory: the fragment that records a
///   theme, the one whose name comes first where several do; a new fragment
///   where none does.
/// * Else the single file.
pub open spec fn is_resolved_path(
    path: Seq<char>,
    legacy_path: Seq<char>,
    legacy_records: bool,
    drop_in_dir: Seq<char>,
    fragments: Option<Seq<Fragment>>,
) -> bool {
    if legacy_records {
        path == legacy_path
    } else {
        match fragments {
            None => path == legacy_path,
            Some(fs) => if exists|j: int| 0 <= j < fs.len() && is_candidate(#[trigger] fs[j]) {
                exists|i: int| is_first_candidate(fs, i) && path == path_in(drop_in_dir, fs[i].name@)
            } else {
                path == path_in(drop_in_dir, NEW_FRAGMENT@)
            },
        }
    }
}

/// The file that changes go to is determined: two paths that both answer
/// the description are the same path.
pub proof fn lemma_resolved_path_unique(
    first: Seq<char>,
    second: Seq<char>,
    legacy_path: Seq<char>,
    legacy_records: bool,
    drop_in_dir: Seq<char>,
    fragments: Option<Seq<Fragment>>,
)
    requires
        is_resolved_path(first, legacy_path, legacy_records, drop_in_dir, fragments),
        is_resolved_path(second, legacy_path, legacy_records, drop_in_dir, fragments),
    ensures
        first == second,
{
    if !legacy_records && fragments is Some {
        let fs = fragments->0;
        if exists|j: int| 0 <= j < fs.len() && is_candidate(#[trigger] fs[j]) {
            let a = choose|i: int|
                is_first_candidate(fs, i) && first == path_in(drop_in_dir, fs[i].name@);
            let b = choose|i: int|
                is_first_candidate(fs, i) && second == path_in(drop_in_dir, fs[i].name@);
            lemma_lex_le_antisymmetric(fs[a].name@, fs[b].name@);
        }
    }
}

/// Whether `name` is something in front of `.conf`.
pub fn has_conf_extension(name: &str) -> (b: bool)
    ensures
        b == is_fragment_name(name@),
{
    let chars = to_chars(name);
    let suffix = to_chars(".conf");
    let n = chars.len();
    let k = suffix.len();
    if n <= k {
        return false;
    }
    let tail = slice_subrange(chars.as_slice(), n - k, n);
    assert(chars@.subrange(n - k, n as int) =~= chars@.skip(n - k));
    same_text(tail, suffix.as_slice())
}

/// Whether `f` is a fragment that records a theme.
fn fragment_is_candidate(f: &Fragment) -> (b: bool)
    ensures
        b == is_candidate(*f),
{
    match &f.content {
        None => false,
        Some(c) => has_conf_extension(f.name.as_str()) && has_theme_section(c.as_str()),
    }
}

/// The path of the file `name` in the directory `dir`.
fn join_path(dir: &str, name: &str) -> (path: String)
    ensures
        path@ == path_in(dir@, name@),
{
    let mut path = String::from_str(dir);
    path.push('/');
    path.append(name);
    assert(path@ =~= path_in(dir@, name@));
    path
}

/// The file that changes go to. `legacy_content` is the text of the single
/// file at `legacy_path`, where it exists and could be read; `fragments`
/// are the files of the directory `drop_in_dir`, where that directory
/// exists.
pub fn resolve_config_path(
    legacy_path: &str,
    legacy_content: Option<&str>,
    drop_in_dir: &str,
    fragments: Option<&Vec<Fragment>>,
) -> (path: String)
    ensures
        is_resolved_path(
            path@,
            legacy_path@,
            match legacy_content {
                Some(c) => records_theme(c@),
                None => false,
            },
            drop_in_dir@,
            match fragments {
                Some(fs) => Some(fs@),
                None => None,
            },
        ),
{
    let legacy_records = match legacy_content {
        Some(c) => has_theme_section(c),
        None => false,
    };
    if legacy_records {
        return String::from_str(legacy_path);
    }
    match fragments {
        None => String::from_str(legacy_path),
        Some(fs) => {
            let mut best: Option<usize> = None;
            let mut best_key: Vec<char> = Vec::new();
            let mut i: usize = 0;
            while i < fs.len()
                invariant
                    0 <= i <= fs.len(),
                    match best {
                        None => forall|j: int| 0 <= j < i ==> !is_candidate(#[trigger] fs@[j]),
                        Some(b) => {
                            &&& b < i
                            &&& is_candidate(fs@[b as int])
                            &&& best_key@ == fs@[b as int].name@
                            &&& forall|j: int|
                                0 <= j < i && is_candidate(#[trigger] fs@[j]) ==> lex_le(
                                    fs@[b as int].name@,
                                    fs@[j].name@,
                                )
                        },
                    },
                decreases fs.len() - i,
            {
                if fragment_is_candidate(&fs[i]) {
                    let key = to_chars(fs[i].name.as_str());
                    let better = match best {
                        None => true,
                        Some(_) => !text_le(best_key.as_slice(), key.as_slice()),
                    };
                    if better {
                        proof {
                            if let Some(b) = best {
                                lemma_lex_le_total(best_key@, key@);
                                assert forall|j: int|
                                    0 <= j < i && is_candidate(#[trigger] fs@[j]) implies lex_le(
                                    key@,
                                    fs@[j].name@,
                                ) by {
                                    lemma_lex_le_transitive(key@, best_key@, fs@[j].name@);
                                }
                            }
                            lemma_lex_le_total(key@, key@);
                        }
                        best = Some(i);
                        best_key = key;
                    }
                }
                i += 1;
            }
            match best {
                None => join_path(drop_in_dir, NEW_FRAGMENT),
                Some(b) => {
                    assert(is_first_candidate(fs@, b as int));
                    join_path(drop_in_dir, fs[b].name.as_str())
                },
            }
        },
    }
}

} // verus!
