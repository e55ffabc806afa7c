//! What holds of patching a configuration document: the recorded theme can
//! be read back, patching twice changes nothing more, and the other lines
//! stay.

use vstd::prelude::*;
use crate::config::{
    first_section_key, first_theme_header, in_theme, is_header, is_key_line, is_section_key,
    is_theme_header, key_line, key_prefix, key_value, lemma_first_theme_header,
    lemma_key_line_is_no_header, lemma_section_stop, lemma_theme_header_is_header, patch_site,
    patched_lines, patched_text, recorded_theme, section_header, section_stop, PatchSite,
};
use crate::text::{
    are_single_lines, is_single_line, is_trimmed, is_whitespace, lemma_lines_are_single,
    lemma_lines_of_unlines, lemma_trim_bounds, lemma_trimmed_ignores_cr, lines, strip_cr, trim,
    trimmed, trimmed_lines, without_cr,
};

verus! {

// ---------------------------------------------------------------------
// The lines that a patch writes
// ---------------------------------------------------------------------

/// The header is its own trimmed form, and so is the blank line.
proof fn lemma_trim_fixed_lines()
    ensures
        trim(section_header()) == section_header(),
        trim(Seq::<char>::empty()) == Seq::<char>::empty(),
        is_single_line(section_header()),
        is_single_line(Seq::<char>::empty()),
        !is_theme_header(Seq::<char>::empty()),
        !(section_header().last() == '\r'),
{
    reveal_strlit("[Theme]");
    assert(is_trimmed(section_header()));
}

/// A key line stays a key line when trimmed, whatever it records. Where the
/// recorded value has no whitespace at its ends, trimming changes nothing
/// and the value read back is that value.
proof fn lemma_trim_key_line(v: Seq<char>)
    ensures
        is_key_line(trim(key_line(v))),
        is_trimmed(v) && v.len() > 0 ==> trim(key_line(v)) == key_line(v) && key_value(
            key_line(v),
        ) == v,
        is_single_line(v) ==> is_single_line(key_line(v)),
{
    reveal_strlit("Current=");
    let kl = key_line(v);
    assert(key_prefix().len() == 8);
    assert(kl[0] == 'C');
    assert(kl[7] == '=');
    let (a, b) = lemma_trim_bounds(kl);
    assert(a == 0) by {
        if a > 0 {
            assert(is_whitespace(kl[0]));
        }
    }
    assert(b >= 8) by {
        if b < 8 {
            assert(is_whitespace(kl[7]));
        }
    }
    assert(key_prefix() =~= kl.subrange(a, b).subrange(0, 8));
    if is_trimmed(v) && v.len() > 0 {
        assert(kl.last() == v.last());
        assert(is_trimmed(kl));
        assert(kl.skip(8) =~= v);
    }
    if is_single_line(v) {
        assert forall|k: int| 0 <= k < kl.len() implies #[trigger] kl[k] != '\n' by {
            if k >= 8 {
                assert(kl[k] == v[k - 8]);
            }
        }
    }
}

// ---------------------------------------------------------------------
// Sections
// ---------------------------------------------------------------------

/// No line lies inside a `[Theme]` section before the first such header.
proof fn lemma_outside_before_header(ts: Seq<Seq<char>>, i: int)
    requires
        0 <= i <= ts.len(),
        forall|m: int| 0 <= m < i ==> !is_theme_header(#[trigger] ts[m]),
    ensures
        !in_theme(ts, i),
    decreases i,
{
    if i > 0 {
        lemma_outside_before_header(ts, i - 1);
    }
}

/// The lines between a `[Theme]` header and the next header lie inside the
/// section.
proof fn lemma_inside_after_header(ts: Seq<Seq<char>>, h: int, i: int)
    requires
        0 <= h < i <= ts.len(),
        is_theme_header(ts[h]),
        forall|m: int| h < m < i ==> !is_header(#[trigger] ts[m]),
    ensures
        in_theme(ts, i),
    decreases i - h,
{
    lemma_theme_header_is_header(ts[h]);
    if i > h + 1 {
        lemma_inside_after_header(ts, h, i - 1);
    }
}

/// The first `[Theme]` header is at `h` when it stands there and nowhere
/// before.
proof fn lemma_first_theme_header_at(ts: Seq<Seq<char>>, from: int, h: int)
    requires
        0 <= from <= h <= ts.len(),
        forall|m: int| from <= m < h ==> !is_theme_header(#[trigger] ts[m]),
        h < ts.len() ==> is_theme_header(ts[h]),
    ensures
        first_theme_header(ts, from) == h,
    decreases h - from,
{
    if from < h {
        lemma_first_theme_header_at(ts, from + 1, h);
    }
}

/// The search for a section's key stops at `j` when a header or a key line
/// stands there and none before.
proof fn lemma_section_stop_at(ts: Seq<Seq<char>>, from: int, j: int)
    requires
        0 <= from <= j <= ts.len(),
        forall|m: int| from <= m < j ==> !is_header(#[trigger] ts[m]) && !is_key_line(ts[m]),
        j < ts.len() ==> is_header(ts[j]) || is_key_line(ts[j]),
    ensures
        section_stop(ts, from) == j,
    decreases j - from,
{
    if from < j {
        lemma_section_stop_at(ts, from + 1, j);
    }
}

/// The first key line inside a `[Theme]` section is at `k` when one stands
/// there and none before.
proof fn lemma_first_section_key_at(ts: Seq<Seq<char>>, from: int, k: int)
    requires
        0 <= from <= k <= ts.len(),
        forall|m: int| from <= m < k ==> !is_section_key(ts, m),
        k < ts.len() ==> is_section_key(ts, k),
    ensures
        first_section_key(ts, from) == k,
    decreases k - from,
{
    if from < k {
        lemma_first_section_key_at(ts, from + 1, k);
    }
}

/// A document whose first `[Theme]` header is at `h`, with a key line at `j`
/// and neither header nor key line between them: its key is found at `j`,
/// and a patch replaces that line.
proof fn lemma_key_found(ts: Seq<Seq<char>>, h: int, j: int)
    requires
        0 <= h < j < ts.len(),
        forall|m: int| 0 <= m < h ==> !is_theme_header(#[trigger] ts[m]),
        is_theme_header(ts[h]),
        forall|m: int| h < m < j ==> !is_header(#[trigger] ts[m]) && !is_key_line(ts[m]),
        is_key_line(ts[j]),
    ensures
        first_section_key(ts, 0) == j,
        patch_site(ts) == PatchSite::Replace(j),
{
    lemma_first_theme_header_at(ts, 0, h);
    lemma_section_stop_at(ts, h + 1, j);
    lemma_inside_after_header(ts, h, j);
    assert forall|m: int| 0 <= m < j implies !is_section_key(ts, m) by {
        if m <= h {
            lemma_outside_before_header(ts, m);
        }
    }
    lemma_first_section_key_at(ts, 0, j);
}

/// A key line written into the first `[Theme]` section of `ts`, where the
/// search for that section's key stops: in the lines `tp` that result, which
/// agree with `ts` before that place, the key is found there, and a patch
/// replaces that line.
proof fn lemma_key_written_in_section(ts: Seq<Seq<char>>, tp: Seq<Seq<char>>, j: int)
    requires
        first_theme_header(ts, 0) < ts.len(),
        j == section_stop(ts, first_theme_header(ts, 0) + 1),
        j < tp.len(),
        forall|m: int| 0 <= m < j ==> #[trigger] tp[m] == ts[m],
        is_key_line(tp[j]),
    ensures
        first_section_key(tp, 0) == j,
        patch_site(tp) == PatchSite::Replace(j),
{
    lemma_first_theme_header(ts, 0);
    let h = first_theme_header(ts, 0);
    lemma_section_stop(ts, h + 1);
    assert(tp[h] == ts[h]);
    assert forall|m: int| 0 <= m < h implies !is_theme_header(#[trigger] tp[m]) by {
        assert(tp[m] == ts[m]);
    }
    assert forall|m: int| h < m < j implies !is_header(#[trigger] tp[m]) && !is_key_line(
        tp[m],
    ) by {
        assert(tp[m] == ts[m]);
    }
    lemma_key_found(tp, h, j);
}

// ---------------------------------------------------------------------
// The patched document
// ---------------------------------------------------------------------

/// Index of the key line that a patch at `site` writes into a document of
/// `n` lines.
pub open spec fn written_index(site: PatchSite, n: nat) -> int {
    match site {
        PatchSite::Replace(j) => j,
        PatchSite::Insert(j) => j,
        PatchSite::Append => (n + 2) as int,
        PatchSite::Fresh => 1,
    }
}

/// In the patched lines the key line that was written is the first key line
/// inside a `[Theme]` section, and the one that a further patch replaces.
proof fn lemma_patched_lines_key(ls: Seq<Seq<char>>, v: Seq<char>)
    ensures
        ({
            let p = patched_lines(ls, v);
            let k = written_index(patch_site(trimmed(ls)), ls.len());
            &&& 0 <= k < p.len()
            &&& p[k] == key_line(v)
            &&& first_section_key(trimmed(p), 0) == k
            &&& patch_site(trimmed(p)) == PatchSite::Replace(k)
        }),
{
    let ts = trimmed(ls);
    let p = patched_lines(ls, v);
    let tp = trimmed(p);
    let kl = key_line(v);
    lemma_trim_key_line(v);
    lemma_trim_fixed_lines();
    lemma_key_line_is_no_header(trim(kl));
    lemma_first_theme_header(ts, 0);
    let h = first_theme_header(ts, 0);
    if h < ts.len() {
        lemma_section_stop(ts, h + 1);
    }
    match patch_site(ts) {
        PatchSite::Replace(j) => {
            assert(tp[j] == trim(kl));
            lemma_key_written_in_section(ts, tp, j);
        },
        PatchSite::Insert(j) => {
            assert(tp[j] == trim(kl));
            lemma_key_written_in_section(ts, tp, j);
        },
        PatchSite::Append => {
            let n = ls.len() as int;
            assert(tp[n] == Seq::<char>::empty());
            assert(tp[n + 1] == section_header());
            assert(tp[n + 2] == trim(kl));
            assert forall|m: int| 0 <= m < n + 1 implies !is_theme_header(#[trigger] tp[m]) by {
                if m < n {
                    assert(tp[m] == ts[m]);
                }
            }
            lemma_key_found(tp, n + 1, n + 2);
        },
        PatchSite::Fresh => {
            assert(tp[0] == section_header());
            assert(tp[1] == trim(kl));
            lemma_key_found(tp, 0, 1);
        },
    }
}

/// The patched lines hold no line feed when the recorded value holds none.
proof fn lemma_patched_lines_are_single(ls: Seq<Seq<char>>, v: Seq<char>)
    requires
        are_single_lines(ls),
        is_single_line(v),
    ensures
        are_single_lines(patched_lines(ls, v)),
{
    let p = patched_lines(ls, v);
    lemma_trim_key_line(v);
    lemma_trim_fixed_lines();
    crate::config::lemma_patch_site_within(trimmed(ls));
    assert forall|i: int| 0 <= i < p.len() implies is_single_line(#[trigger] p[i]) by {
        match patch_site(trimmed(ls)) {
            PatchSite::Replace(j) => {
                if i != j {
                    assert(p[i] == ls[i]);
                }
            },
            PatchSite::Insert(j) => {
                if i < j {
                    assert(p[i] == ls[i]);
                } else if i > j {
                    assert(p[i] == ls[i - 1]);
                }
            },
            PatchSite::Append => {
                if i < ls.len() {
                    assert(p[i] == ls[i]);
                }
            },
            PatchSite::Fresh => {},
        }
    }
}

// ---------------------------------------------------------------------
// The laws
// ---------------------------------------------------------------------

/// Whether `v` is a value that a document can record on one line and give
/// back unchanged: it is not empty, has no whitespace at either end and
/// holds no line feed.
pub open spec fn is_theme_value(v: Seq<char>) -> bool {
    v.len() > 0 && is_trimmed(v) && is_single_line(v)
}

/// Whether every line of `doc` that a patch copies is free of a trailing
/// carriage return. Such a carriage return would be written before the line
/// feed and read as part of the line's end the next time.
pub open spec fn copies_no_cr(doc: Seq<char>) -> bool {
    let ls = lines(doc);
    forall|i: int|
        0 <= i < ls.len() && patch_site(trimmed(ls)) != PatchSite::Replace(i) ==> strip_cr(
            #[trigger] ls[i],
        ) == ls[i]
}

/// The lines of a patched document are the patched lines of the document,
/// each without one trailing carriage return.
pub proof fn lemma_lines_of_patched_text(doc: Seq<char>, v: Seq<char>)
    requires
        is_single_line(v),
    ensures
        lines(patched_text(doc, v)) == without_cr(patched_lines(lines(doc), v)),
        trimmed_lines(patched_text(doc, v)) == trimmed(patched_lines(lines(doc), v)),
{
    let ls = lines(doc);
    lemma_lines_are_single(doc);
    lemma_patched_lines_are_single(ls, v);
    lemma_lines_of_unlines(patched_lines(ls, v));
    lemma_trimmed_ignores_cr(patched_lines(ls, v));
}

/// Reading after patching: whatever the document held, the theme read from
/// the patched document is the value that was recorded.
pub proof fn lemma_patch_then_read(doc: Seq<char>, v: Seq<char>)
    requires
        is_theme_value(v),
    ensures
        recorded_theme(patched_text(doc, v)) == Some(v),
{
    let ls = lines(doc);
    lemma_lines_of_patched_text(doc, v);
    lemma_patched_lines_key(ls, v);
    lemma_trim_key_line(v);
    let p = patched_lines(ls, v);
    let k = written_index(patch_site(trimmed(ls)), ls.len());
    assert(trimmed(p)[k] == trim(p[k]));
}

/// Patching twice with one value gives what patching once gives.
pub proof fn lemma_patch_idempotent(doc: Seq<char>, v: Seq<char>)
    requires
        is_single_line(v),
        copies_no_cr(doc),
    ensures
        patched_text(patched_text(doc, v), v) == patched_text(doc, v),
{
    let ls = lines(doc);
    let p = patched_lines(ls, v);
    let once = patched_text(doc, v);
    let k = written_index(patch_site(trimmed(ls)), ls.len());
    lemma_lines_of_patched_text(doc, v);
    lemma_patched_lines_key(ls, v);
    lemma_trim_fixed_lines();
    crate::config::lemma_patch_site_within(trimmed(ls));
    let again = patched_lines(lines(once), v);
    assert(again == without_cr(p).update(k, key_line(v)));
    assert(again =~= p) by {
        assert forall|i: int| 0 <= i < p.len() && i != k implies strip_cr(#[trigger] p[i])
            == p[i] by {
            match patch_site(trimmed(ls)) {
                PatchSite::Replace(j) => {
                    assert(p[i] == ls[i]);
                },
                PatchSite::Insert(j) => {
                    if i < j {
                        assert(p[i] == ls[i]);
                    } else {
                        assert(p[i] == ls[i - 1]);
                    }
                },
                PatchSite::Append => {
                    if i < ls.len() {
                        assert(p[i] == ls[i]);
                    }
                },
                PatchSite::Fresh => {},
            }
        }
    }
}

/// Patching keeps every line but one: the lines of the patched document are
/// the lines it had before, with the key line put in the place of one line
/// or between two, or with a blank line, the header and the key line after
/// them. (A line is read without the carriage return that may end it.)
pub proof fn lemma_patch_keeps_other_lines(doc: Seq<char>, v: Seq<char>)
    requires
        is_single_line(v),
    ensures
        ({
            let before = without_cr(lines(doc));
            let after = lines(patched_text(doc, v));
            let written = strip_cr(key_line(v));
            match patch_site(trimmed_lines(doc)) {
                PatchSite::Replace(j) => 0 <= j < before.len() && after == before.update(
                    j,
                    written,
                ),
                PatchSite::Insert(j) => 0 < j <= before.len() && after == before.insert(
                    j,
                    written,
                ),
                PatchSite::Append => after == before + seq![
                    Seq::empty(),
                    section_header(),
                    written,
                ],
                PatchSite::Fresh => before.len() == 0 && after == seq![section_header(), written],
            }
        }),
{
    let ls = lines(doc);
    lemma_lines_of_patched_text(doc, v);
    lemma_trim_fixed_lines();
    crate::config::lemma_patch_site_within(trimmed(ls));
    let before = without_cr(ls);
    let after = lines(patched_text(doc, v));
    let written = strip_cr(key_line(v));
    match patch_site(trimmed(ls)) {
        PatchSite::Replace(j) => {
            assert(after =~= before.update(j, written));
        },
        PatchSite::Insert(j) => {
            assert(after =~= before.insert(j, written));
        },
        PatchSite::Append => {
            assert(after =~= before + seq![Seq::empty(), section_header(), written]);
        },
        PatchSite::Fresh => {
            assert(after =~= seq![section_header(), written]);
        },
    }
}

} // verus!
