//! Installed themes: what is known of one theme, how its descriptor file is
//! read, and how the entries of the theme directory become a sorted list.

use vstd::prelude::*;
use vstd::slice::slice_subrange;
use vstd::string::StringExecFns;
use crate::text::{
    from_chars, lemma_lex_le_total, lemma_lex_le_transitive, lex_le, lines_view, split_lines,
    starts_with, text_le, to_chars, trim, trim_lines, trim_slice, trimmed_lines,
};

verus! {

/// Directory that holds one subdirectory per installed theme.
pub const THEMES_DIR: &'static str = "/usr/share/sddm/themes";

/// Name of the descriptor file inside a theme's directory.
pub const METADATA_FILE: &'static str = "metadata.desktop";

/// A discovered theme.
#[derive(Debug, Clone)]
pub struct SddmTheme {
    /// Directory name: the identifier that the configuration records.
    pub name: String,
    /// Path of the theme's directory.
    pub path: String,
    /// Description from the descriptor file, if it gives one.
    pub description: Option<String>,
    /// Author from the descriptor file, if it gives one.
    pub author: Option<String>,
}

/// What a theme is, as plain text.
pub struct ThemeView {
    pub name: Seq<char>,
    pub path: Seq<char>,
    pub description: Option<Seq<char>>,
    pub author: Option<Seq<char>>,
}

/// The text of an optional string.
pub open spec fn text_of(s: Option<String>) -> Option<Seq<char>> {
    match s {
        Some(s) => Some(s@),
        None => None,
    }
}

impl View for SddmTheme {
    type V = ThemeView;

    open spec fn view(&self) -> ThemeView {
        ThemeView {
            name: self.name@,
            path: self.path@,
            description: text_of(self.description),
            author: text_of(self.author),
        }
    }
}

// ---------------------------------------------------------------------
// The display label
// ---------------------------------------------------------------------

/// What stands between a theme's name and its description in a label.
pub open spec fn label_separator() -> Seq<char> {
    " \u{2014} "@
}

/// The one-line label of a theme: its name, followed by the separator and
/// the description where there is one that is not empty.
pub open spec fn label_of(t: ThemeView) -> Seq<char> {
    match t.description {
        Some(d) => if d.len() > 0 {
            t.name + label_separator() + d
        } else {
            t.name
        },
        None => t.name,
    }
}

// ---------------------------------------------------------------------
// The descriptor file
// ---------------------------------------------------------------------

/// What the description line of a descriptor starts with.
pub open spec fn description_prefix() -> Seq<char> {
    "Description="@
}

/// What the author line of a descriptor starts with.
pub open spec fn author_prefix() -> Seq<char> {
    "Author="@
}

/// Index of the first of the trimmed lines `ts`, at or after `from`, that
/// starts with `prefix`, or `ts.len()` when there is none.
pub open spec fn first_with_prefix(ts: Seq<Seq<char>>, prefix: Seq<char>, from: int) -> int
    decreases ts.len() - from,
{
    if from >= ts.len() {
        ts.len() as int
    } else if prefix.is_prefix_of(ts[from]) {
        from
    } else {
        first_with_prefix(ts, prefix, from + 1)
    }
}

/// The value of the first line of `doc` whose trimmed text starts with
/// `prefix`: what follows the prefix on that line, trimmed.
pub open spec fn field_of(doc: Seq<char>, prefix: Seq<char>) -> Option<Seq<char>> {
    let ts = trimmed_lines(doc);
    let k = first_with_prefix(ts, prefix, 0);
    if k < ts.len() {
        Some(trim(ts[k].skip(prefix.len() as int)))
    } else {
        None
    }
}

/// The description and the author that a descriptor gives. A descriptor that
/// could not be read gives neither.
pub open spec fn metadata_of(content: Option<Seq<char>>) -> (Option<Seq<char>>, Option<Seq<char>>) {
    match content {
        Some(doc) => (field_of(doc, description_prefix()), field_of(doc, author_prefix())),
        None => (None, None),
    }
}

/// The trimmed value of the first of the trimmed lines `ts` that starts
/// with `prefix`.
fn find_field(ts: &Vec<&[char]>, prefix: &[char]) -> (value: Option<String>)
    ensures
        ({
            let tsv = lines_view(ts@);
            let k = first_with_prefix(tsv, prefix@, 0);
            text_of(value) == if k < tsv.len() {
                Some(trim(tsv[k].skip(prefix@.len() as int)))
            } else {
                None
            }
        }),
{
    let ghost tsv = lines_view(ts@);
    let mut i: usize = 0;
    while i < ts.len()
        invariant
            0 <= i <= ts.len(),
            tsv == lines_view(ts@),
            first_with_prefix(tsv, prefix@, 0) == first_with_prefix(tsv, prefix@, i as int),
        decreases ts.len() - i,
    {
        let t = ts[i];
        assert(t@ == tsv[i as int]);
        if starts_with(t, prefix) {
            let rest = slice_subrange(t, prefix.len(), t.len());
            assert(t@.subrange(prefix@.len() as int, t@.len() as int) =~= t@.skip(
                prefix@.len() as int,
            ));
            return Some(from_chars(trim_slice(rest)));
        }
        i += 1;
    }
    None
}

/// The description and the author that the descriptor `content` gives:
/// for each, what follows `Description=` or `Author=` on the first line
/// whose trimmed text starts with it, trimmed. `None` for `content` stands
/// for a descriptor that could not be read.
pub fn parse_metadata(content: Option<&str>) -> (fields: (Option<String>, Option<String>))
    ensures
        (text_of(fields.0), text_of(fields.1)) == metadata_of(
            match content {
                Some(c) => Some(c@),
                None => None,
            },
        ),
{
    match content {
        None => (None, None),
        Some(c) => {
            let chars = to_chars(c);
            let ls = split_lines(chars.as_slice());
            let ts = trim_lines(&ls);
            let description_key = to_chars("Description=");
            let author_key = to_chars("Author=");
            let description = find_field(&ts, description_key.as_slice());
            let author = find_field(&ts, author_key.as_slice());
            (description, author)
        },
    }
}

impl SddmTheme {
    /// One-line label for display: the name, followed by a dash and the
    /// description where there is one that is not empty.
    pub fn display_label(&self) -> (label: String)
        ensures
            label@ == label_of(self@),
    {
        match &self.description {
            Some(d) => {
                if !d.as_str().is_empty() {
                    let mut label = self.name.clone();
                    label.append(" \u{2014} ");
                    label.append(d.as_str());
                    label
                } else {
                    self.name.clone()
                }
            },
            None => self.name.clone(),
        }
    }
}

// ---------------------------------------------------------------------
// The directory name
// ---------------------------------------------------------------------

/// Where the last segment of `p` starts: behind the last `/`, or at 0.
pub open spec fn segment_start(p: Seq<char>) -> int
    decreases p.len(),
{
    if p.len() == 0 || p.last() == '/' {
        p.len() as int
    } else {
        segment_start(p.drop_last())
    }
}

/// The name that the path `p` ends in: its last segment between `/`s, where
/// trailing `/`s and trailing `.` segments do not count. A path that ends in
/// `..`, or that has no such segment, has no name.
pub open spec fn final_component(p: Seq<char>) -> Option<Seq<char>>
    decreases p.len(),
{
    if p.len() == 0 {
        None
    } else if p.last() == '/' {
        final_component(p.drop_last())
    } else {
        let start = segment_start(p);
        let segment = p.skip(start);
        if segment == seq!['.'] {
            final_component(p.drop_last())
        } else if segment == seq!['.', '.'] {
            None
        } else {
            Some(segment)
        }
    }
}

/// The last segment of `p` starts at `start` when a `/` stands before
/// `start`, or `start` is 0, and none stands behind.
proof fn lemma_segment_start_at(p: Seq<char>, start: int)
    requires
        0 <= start <= p.len(),
        start > 0 ==> p[start - 1] == '/',
        forall|k: int| start <= k < p.len() ==> #[trigger] p[k] != '/',
    ensures
        segment_start(p) == start,
    decreases p.len() - start,
{
    if start < p.len() {
        lemma_segment_start_at(p.drop_last(), start);
    }
}

/// The name that the path `p` ends in, if it has one.
pub fn path_name(p: &[char]) -> (name: Option<&[char]>)
    ensures
        match name {
            Some(n) => final_component(p@) == Some(n@),
            None => final_component(p@) is None,
        },
{
    let mut end: usize = p.len();
    assert(p@.take(end as int) =~= p@);
    loop
        invariant
            0 <= end <= p.len(),
            final_component(p@) == final_component(p@.take(end as int)),
        decreases end,
    {
        let ghost head = p@.take(end as int);
        if end == 0 {
            return None;
        }
        if p[end - 1] == '/' {
            assert(head.drop_last() =~= p@.take(end - 1));
            end -= 1;
            continue ;
        }
        let mut start: usize = end - 1;
        while start > 0 && p[start - 1] != '/'
            invariant
                0 <= start < end <= p.len(),
                forall|k: int| start <= k < end ==> #[trigger] p@[k] != '/',
            decreases start,
        {
            start -= 1;
        }
        proof {
            assert forall|k: int| start <= k < head.len() implies #[trigger] head[k] != '/' by {
                assert(head[k] == p@[k]);
            }
            lemma_segment_start_at(head, start as int);
            assert(head.skip(start as int) =~= p@.subrange(start as int, end as int));
            if end - start == 1 {
                assert(head.drop_last() =~= p@.take(start as int));
            }
        }
        let segment = slice_subrange(p, start, end);
        if segment.len() == 1 && segment[0] == '.' {
            assert(segment@ =~= seq!['.']);
            end = start;
        } else if segment.len() == 2 && segment[0] == '.' && segment[1] == '.' {
            assert(segment@ =~= seq!['.', '.']);
            return None;
        } else {
            assert(segment@ != seq!['.']) by {
                if segment@ == seq!['.'] {
                    assert(segment@.len() == 1 && segment@[0] == '.');
                }
            }
            assert(segment@ != seq!['.', '.']) by {
                if segment@ == seq!['.', '.'] {
                    assert(segment@.len() == 2 && segment@[0] == '.' && segment@[1] == '.');
                }
            }
            return Some(segment);
        }
    }
}

/// The theme that the directory entry at `path` stands for, if it stands
/// for one: an entry that is a directory and whose path ends in a name.
/// `metadata` is what its descriptor file holds, or `None`.
pub open spec fn theme_of(path: Seq<char>, is_dir: bool, metadata: Option<Seq<char>>) -> Option<
    ThemeView,
> {
    if is_dir && final_component(path) is Some {
        Some(
            ThemeView {
                name: final_component(path)->0,
                path: path,
                description: metadata_of(metadata).0,
                author: metadata_of(metadata).1,
            },
        )
    } else {
        None
    }
}

impl SddmTheme {
    /// The theme in the directory at `path`. `is_dir` says whether `path`
    /// is a directory; `metadata` is the content of the descriptor file in
    /// it, or `None` where that could not be read. Returns `None` when the
    /// path is not a directory or ends in no name.
    pub fn from_dir(path: &str, is_dir: bool, metadata: Option<&str>) -> (theme: Option<SddmTheme>)
        ensures
            match theme {
                Some(t) => theme_of(
                    path@,
                    is_dir,
                    match metadata {
                        Some(m) => Some(m@),
                        None => None,
                    },
                ) == Some(t@),
                None => theme_of(
                    path@,
                    is_dir,
                    match metadata {
                        Some(m) => Some(m@),
                        None => None,
                    },
                ) is None,
            },
    {
        if !is_dir {
            return None;
        }
        let chars = to_chars(path);
        match path_name(chars.as_slice()) {
            None => None,
            Some(name) => {
                let (description, author) = parse_metadata(metadata);
                Some(
                    SddmTheme {
                        name: from_chars(name),
                        path: String::from_str(path),
                        description,
                        author,
                    },
                )
            },
        }
    }
}

// ---------------------------------------------------------------------
// The sorted list
// ---------------------------------------------------------------------

/// One entry of the theme directory, as it was found on disk.
#[derive(Debug, Clone)]
pub struct ScannedEntry {
    /// Path of the entry.
    pub path: String,
    /// Whether the entry is a directory.
    pub is_dir: bool,
    /// Content of the descriptor file inside it, where one could be read.
    pub metadata: Option<String>,
}

/// The theme that `entry` stands for, if it stands for one.
pub open spec fn entry_theme(entry: ScannedEntry) -> Option<ThemeView> {
    theme_of(entry.path@, entry.is_dir, text_of(entry.metadata))
}

/// The themes that the entries stand for, in the order of the entries.
pub open spec fn themes_of(entries: Seq<ScannedEntry>) -> Seq<ThemeView>
    decreases entries.len(),
{
    if entries.len() == 0 {
        Seq::empty()
    } else {
        match entry_theme(entries.last()) {
            Some(t) => themes_of(entries.drop_last()).push(t),
            None => themes_of(entries.drop_last()),
        }
    }
}

/// Whether the names in `ts` ascend.
pub open spec fn sorted_by_name(ts: Seq<ThemeView>) -> bool {
    forall|i: int, j: int| 0 <= i < j < ts.len() ==> lex_le(#[trigger] ts[i].name, #[trigger] ts[j].name)
}

/// Where a theme of the given name goes into the sorted `ts`: behind the
/// last theme whose name comes no later.
pub open spec fn insertion_point(ts: Seq<ThemeView>, name: Seq<char>) -> int
    decreases ts.len(),
{
    if ts.len() == 0 || lex_le(ts.last().name, name) {
        ts.len() as int
    } else {
        insertion_point(ts.drop_last(), name)
    }
}

/// The themes `ts` sorted by name, those of one name in the order they had.
pub open spec fn sort_by_name(ts: Seq<ThemeView>) -> Seq<ThemeView>
    decreases ts.len(),
{
    if ts.len() == 0 {
        Seq::empty()
    } else {
        let sorted = sort_by_name(ts.drop_last());
        sorted.insert(insertion_point(sorted, ts.last().name), ts.last())
    }
}

/// The views of the themes `v`.
pub open spec fn theme_views(v: Seq<SddmTheme>) -> Seq<ThemeView> {
    v.map_values(|t: SddmTheme| t@)
}

/// Where the insertion point lies: the themes before it have names that
/// come no later, the themes from it on have names that come later.
pub proof fn lemma_insertion_point(ts: Seq<ThemeView>, name: Seq<char>)
    requires
        sorted_by_name(ts),
    ensures
        0 <= insertion_point(ts, name) <= ts.len(),
        forall|i: int| 0 <= i < insertion_point(ts, name) ==> lex_le(#[trigger] ts[i].name, name),
        forall|i: int|
            insertion_point(ts, name) <= i < ts.len() ==> !lex_le(#[trigger] ts[i].name, name),
    decreases ts.len(),
{
    if ts.len() == 0 {
    } else if lex_le(ts.last().name, name) {
        assert forall|i: int| 0 <= i < ts.len() implies lex_le(#[trigger] ts[i].name, name) by {
            if i < ts.len() - 1 {
                lemma_lex_le_transitive(ts[i].name, ts.last().name, name);
            }
        }
    } else {
        let head = ts.drop_last();
        assert(sorted_by_name(head)) by {
            assert forall|i: int, j: int| 0 <= i < j < head.len() implies lex_le(
                #[trigger] head[i].name,
                #[trigger] head[j].name,
            ) by {
                assert(head[i] == ts[i] && head[j] == ts[j]);
            }
        }
        lemma_insertion_point(head, name);
        let k = insertion_point(head, name);
        assert forall|i: int| 0 <= i < k implies lex_le(#[trigger] ts[i].name, name) by {
            assert(ts[i] == head[i]);
        }
        assert forall|i: int| k <= i < ts.len() implies !lex_le(#[trigger] ts[i].name, name) by {
            if i < ts.len() - 1 {
                assert(ts[i] == head[i]);
            }
        }
    }
}

/// Sorted themes stay sorted when one more goes in at its insertion point.
pub proof fn lemma_insert_keeps_sorted(ts: Seq<ThemeView>, t: ThemeView)
    requires
        sorted_by_name(ts),
    ensures
        sorted_by_name(ts.insert(insertion_point(ts, t.name), t)),
{
    lemma_insertion_point(ts, t.name);
    let k = insertion_point(ts, t.name);
    let out = ts.insert(k, t);
    assert forall|i: int, j: int| 0 <= i < j < out.len() implies lex_le(
        #[trigger] out[i].name,
        #[trigger] out[j].name,
    ) by {
        if j < k {
            assert(out[i] == ts[i] && out[j] == ts[j]);
        } else if j == k {
            assert(out[i] == ts[i]);
        } else if i == k {
            assert(out[j] == ts[j - 1]);
            lemma_lex_le_total(ts[j - 1].name, t.name);
        } else if i < k {
            assert(out[i] == ts[i] && out[j] == ts[j - 1]);
        } else {
            assert(out[i] == ts[i - 1] && out[j] == ts[j - 1]);
        }
    }
}

/// Sorting yields ascending names, and the themes it was given: each as
/// often as before.
pub proof fn lemma_sort_by_name(ts: Seq<ThemeView>)
    ensures
        sorted_by_name(sort_by_name(ts)),
        sort_by_name(ts).to_multiset() == ts.to_multiset(),
        sort_by_name(ts).len() == ts.len(),
    decreases ts.len(),
{
    broadcast use vstd::seq_lib::group_to_multiset_ensures;

    if ts.len() > 0 {
        let head = ts.drop_last();
        lemma_sort_by_name(head);
        let sorted = sort_by_name(head);
        lemma_insertion_point(sorted, ts.last().name);
        lemma_insert_keeps_sorted(sorted, ts.last());
        assert(ts =~= head.push(ts.last()));
    }
}

/// The installed themes among `entries`: one for each entry that is a
/// directory with a name, sorted by name.
pub fn discover_themes(entries: &Vec<ScannedEntry>) -> (themes: Vec<SddmTheme>)
    ensures
        theme_views(themes@) == sort_by_name(themes_of(entries@)),
        sorted_by_name(theme_views(themes@)),
        theme_views(themes@).to_multiset() == themes_of(entries@).to_multiset(),
{
    let mut themes: Vec<SddmTheme> = Vec::new();
    let mut keys: Vec<Vec<char>> = Vec::new();
    let mut i: usize = 0;
    assert(entries@.take(0) =~= Seq::<ScannedEntry>::empty());
    assert(theme_views(themes@) =~= Seq::<ThemeView>::empty());
    while i < entries.len()
        invariant
            0 <= i <= entries.len(),
            keys.len() == themes.len(),
            forall|k: int| 0 <= k < keys.len() ==> (#[trigger] keys@[k])@ == themes@[k].name@,
            theme_views(themes@) == sort_by_name(themes_of(entries@.take(i as int))),
        decreases entries.len() - i,
    {
        let entry = &entries[i];
        let metadata = match &entry.metadata {
            Some(m) => Some(m.as_str()),
            None => None,
        };
        let ghost before = entries@.take(i as int);
        let ghost now = entries@.take(i + 1);
        proof {
            assert(now.drop_last() =~= before);
            assert(now.last() == entries@[i as int]);
            lemma_sort_by_name(themes_of(before));
            assert(text_of(entry.metadata) == match metadata {
                Some(m) => Some(m@),
                None => None,
            });
        }
        let found = SddmTheme::from_dir(entry.path.as_str(), entry.is_dir, metadata);
        assert(match found {
            Some(t) => entry_theme(*entry) == Some(t@),
            None => entry_theme(*entry) is None,
        });
        match found {
            None => {},
            Some(theme) => {
                let key = to_chars(theme.name.as_str());
                let ghost sorted = theme_views(themes@);
                let mut pos: usize = themes.len();
                assert(sorted.take(pos as int) =~= sorted);
                while pos > 0 && !text_le(keys[pos - 1].as_slice(), key.as_slice())
                    invariant
                        0 <= pos <= themes.len(),
                        keys.len() == themes.len(),
                        key@ == theme.name@,
                        sorted == theme_views(themes@),
                        forall|k: int|
                            0 <= k < keys.len() ==> (#[trigger] keys@[k])@ == themes@[k].name@,
                        insertion_point(sorted, key@) == insertion_point(
                            sorted.take(pos as int),
                            key@,
                        ),
                    decreases pos,
                {
                    proof {
                        let head = sorted.take(pos as int);
                        assert(head.last() == sorted[pos - 1]);
                        assert(head.drop_last() =~= sorted.take(pos - 1));
                    }
                    pos -= 1;
                }
                proof {
                    let head = sorted.take(pos as int);
                    if pos > 0 {
                        assert(head.last() == sorted[pos - 1]);
                    }
                    assert(insertion_point(sorted, key@) == pos);
                    assert(theme_views(themes@.insert(pos as int, theme)) =~= sorted.insert(
                        pos as int,
                        theme@,
                    ));
                    let all = themes_of(before).push(theme@);
                    assert(themes_of(now) == all);
                    assert(all.drop_last() =~= themes_of(before));
                    assert(all.last() == theme@);
                }
                themes.insert(pos, theme);
                keys.insert(pos, key);
            },
        }
        i += 1;
    }
    proof {
        assert(entries@.take(i as int) =~= entries@);
        lemma_sort_by_name(themes_of(entries@));
    }
    themes
}

} // verus!
