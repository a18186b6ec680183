//! Rendered rows, kept across frames so that a change renders only what it
//! touched.
//!
//! Changes are found by mark, not by comparison: whoever changes the model says
//! at which line the change starts. Marks are trusted only while they account
//! for every revision since the last update; a revision without a mark has
//! everything rendered again. A missed mark therefore costs work, never
//! correctness.

use vstd::prelude::*;
use crate::chars::{all_white, group_views, is_blank, own, same, views};
use crate::measure::{lowercase, to_lowercase};
use crate::style::{blank, spans_text, Line, LineView, Span};
use crate::transcript::details::{bare, extend_rows, RowView, TranscriptRow};
use crate::transcript::lines::{PageView, Scene, SceneView};
use crate::transcript::model::{ItemView, Line_, ToolKind};
use crate::transcript::render::{
    empty_memo, entry_rows, memo_entry_rows, ChildRowMemo, MemoView,
};
use crate::transcript::pages::{
    append_asks, asks_from, entry_asks, lemma_prepared_both, memo_asks, memo_pages, pages_from,
    prepared, AskView, PageAsk,
};
use crate::transcript::rows::{
    entries_from, entry_animated, entry_at, entry_fits, entry_is_child, is_plain_tool,
    lemma_run_end, run_end, transcript_entry_animated, transcript_entry_at, EntryView,
    TranscriptEntry,
};
use crate::words::{contains, holds};

verus! {

broadcast use group_views;

/// The blank rows below the transcript.
pub const TAIL_PADDING_ROWS: usize = 1;

/// An entry of the transcript with its rows.
#[derive(Debug)]
pub struct CachedTranscriptEntry {
    pub entry: TranscriptEntry,
    /// Whether the rows move while the model rests.
    pub animated: bool,
    pub rows: Vec<TranscriptRow>,
    /// The rows that match the query, once they have been looked for.
    pub matches: Option<Vec<usize>>,
    pub children: ChildRowMemo,
}

#[verifier::ext_equal]
pub struct CachedView {
    pub entry: EntryView,
    pub animated: bool,
    pub rows: Seq<RowView>,
    pub matches: Option<Seq<usize>>,
    pub children: MemoView,
}

pub open spec fn matches_view(m: Option<Vec<usize>>) -> Option<Seq<usize>> {
    match m {
        Some(m) => Some(m@),
        None => None,
    }
}

impl View for CachedTranscriptEntry {
    type V = CachedView;

    open spec fn view(&self) -> CachedView {
        CachedView {
            entry: self.entry@,
            animated: self.animated,
            rows: views(self.rows@),
            matches: matches_view(self.matches),
            children: self.children@,
        }
    }
}

#[derive(Debug)]
pub struct TranscriptRenderCache {
    pub width: Option<u16>,
    /// The revision of the last mark or update.
    pub revision: Option<u64>,
    /// The lowest line whose rows may be stale as of `revision`.
    pub dirty_from: usize,
    /// The query that the matches of the entries were looked for with.
    pub query: Option<String>,
    pub entries: Vec<CachedTranscriptEntry>,
}

#[verifier::ext_equal]
pub struct CacheView {
    pub width: Option<u16>,
    pub revision: Option<u64>,
    pub dirty_from: nat,
    pub query: Option<Seq<char>>,
    pub entries: Seq<CachedView>,
}

pub open spec fn query_view(q: Option<String>) -> Option<Seq<char>> {
    match q {
        Some(q) => Some(q@),
        None => None,
    }
}

impl View for TranscriptRenderCache {
    type V = CacheView;

    open spec fn view(&self) -> CacheView {
        CacheView {
            width: self.width,
            revision: self.revision,
            dirty_from: self.dirty_from as nat,
            query: query_view(self.query),
            entries: views(self.entries@),
        }
    }
}

/// The text of a row.
pub open spec fn row_text(row: RowView) -> Seq<char> {
    spans_text(row.line.spans)
}

/// The rows before `n` whose text holds the needle, case apart.
pub open spec fn matching_offsets(rows: Seq<RowView>, n: int, needle: Seq<char>) -> Seq<usize>
    decreases n,
{
    if n <= 0 || n > rows.len() {
        Seq::empty()
    } else if holds(lowercase(row_text(rows[n - 1])), needle) {
        matching_offsets(rows, n - 1, needle).push((n - 1) as usize)
    } else {
        matching_offsets(rows, n - 1, needle)
    }
}

/// All the matches of an entry.
pub open spec fn entry_matches(rows: Seq<RowView>, needle: Seq<char>) -> Seq<usize> {
    matching_offsets(rows, rows.len() as int, needle)
}

/// Entry number `i` starts where the one before it ends, the first at line
/// `from`, and is not empty.
pub open spec fn follows(entries: Seq<CachedView>, i: int, from: int) -> bool {
    let e = entries[i].entry;
    &&& e.start < e.end
    &&& e.start == (if i == 0 {
        from
    } else {
        entries[i - 1].entry.end
    })
    &&& e.group is None ==> e.end == e.start + 1
}

/// The entries follow one another from the first line on, and what they remember
/// of a query is what the query finds.
pub open spec fn cache_wf(c: CacheView) -> bool {
    &&& forall|i: int| 0 <= i < c.entries.len() ==> #[trigger] follows(c.entries, i, 0)
    &&& forall|i: int|
        0 <= i < c.entries.len() && c.query is Some && (
        #[trigger] c.entries[i]).matches is Some ==> c.entries[i].matches == Some(
            entry_matches(c.entries[i].rows, lowercase(c.query->0)),
        )
}

/// The cache that holds nothing for any width but `width`.
pub open spec fn invalidated(width: u16) -> CacheView {
    CacheView {
        width: Some(width),
        revision: None,
        dirty_from: 0,
        query: None,
        entries: Seq::empty(),
    }
}

/// The revision before.
pub open spec fn previous(revision: u64) -> u64 {
    if revision == 0 {
        u64::MAX
    } else {
        (revision - 1) as u64
    }
}

/// The cache after a change from line `from` on at `revision`.
pub open spec fn marked_dirty(c: CacheView, from: nat, revision: u64) -> CacheView {
    CacheView {
        dirty_from: if c.revision == Some(previous(revision)) {
            if from < c.dirty_from {
                from
            } else {
                c.dirty_from
            }
        } else {
            0
        },
        revision: Some(revision),
        ..c
    }
}

/// An entry's rows, behind a blank row where an entry comes before it.
pub open spec fn spaced(rows: Seq<RowView>, index: int, e: EntryView) -> Seq<RowView> {
    if index > 0 && !entry_is_child(e) {
        seq![bare(blank())] + rows
    } else {
        rows
    }
}

/// The entry from line `from` on, rendered afresh as entry number `index`.
pub open spec fn built(
    lines: Seq<ItemView>,
    scene: SceneView,
    width: nat,
    e: EntryView,
    index: int,
) -> CachedView {
    let shown = memo_entry_rows(lines, e, scene, width, empty_memo());
    CachedView {
        entry: e,
        animated: entry_animated(lines, e),
        rows: spaced(shown.0, index, e),
        matches: None,
        children: shown.1,
    }
}

/// The entries from line `from` on, rendered afresh from number `index` on.
pub open spec fn rebuilt(
    lines: Seq<ItemView>,
    scene: SceneView,
    width: nat,
    from: int,
    index: int,
) -> Seq<CachedView>
    decreases lines.len() - from,
    when 0 <= from
    via rebuilt_decreases
{
    if from >= lines.len() {
        Seq::empty()
    } else {
        let e = entry_at(lines, scene.expanded_groups, from);
        seq![built(lines, scene, width, e, index)] + rebuilt(lines, scene, width, e.end, index + 1)
    }
}

#[via_fn]
proof fn rebuilt_decreases(
    lines: Seq<ItemView>,
    scene: SceneView,
    width: nat,
    from: int,
    index: int,
) {
    if from < lines.len() {
        lemma_run_end(lines, from);
    }
}

/// An entry that was kept: where it moves with the clock its rows are rendered
/// again, with the timelines it remembers.
pub open spec fn refreshed(
    lines: Seq<ItemView>,
    scene: SceneView,
    width: nat,
    c: CachedView,
    index: int,
) -> CachedView {
    if c.animated {
        let shown = memo_entry_rows(
            lines,
            c.entry,
            scene,
            width,
            MemoView { reuse: true, ..c.children },
        );
        CachedView {
            rows: spaced(shown.0, index, c.entry),
            matches: None,
            children: MemoView { reuse: false, ..shown.1 },
            ..c
        }
    } else {
        c
    }
}

/// The first line that may have changed, for an update to `revision`.
pub open spec fn first_dirty(c: CacheView, revision: u64) -> nat {
    if c.revision == Some(revision) {
        c.dirty_from
    } else {
        0
    }
}

/// The first entry from `i` on that ends behind the line `dirty`.
pub open spec fn dirty_entry(entries: Seq<CachedView>, i: int, dirty: nat) -> int
    decreases entries.len() - i,
{
    if i < 0 || i >= entries.len() || entries[i].entry.end > dirty {
        i
    } else {
        dirty_entry(entries, i + 1, dirty)
    }
}

/// How many entries an update keeps: those before the first dirty line, less the
/// last where it is a group and a call now stands at its end, which belongs to
/// it.
pub open spec fn kept_entries(c: CacheView, lines: Seq<ItemView>, revision: u64) -> int {
    let n = dirty_entry(c.entries, 0, first_dirty(c, revision));
    if n > 0 && c.entries[n - 1].entry.group is Some && c.entries[n - 1].entry.end < lines.len()
        && is_plain_tool(lines[c.entries[n - 1].entry.end]) {
        n - 1
    } else {
        n
    }
}

/// The line from which entries are rendered afresh.
pub open spec fn resume_line(entries: Seq<CachedView>, kept: int, lines: Seq<ItemView>) -> int {
    let line = if kept < entries.len() {
        entries[kept].entry.start
    } else if entries.len() > 0 {
        entries.last().entry.end
    } else {
        0
    };
    if line <= lines.len() {
        line
    } else {
        lines.len() as int
    }
}

/// The cache as an update to this width finds it.
pub open spec fn at_width(c: CacheView, width: u16) -> CacheView {
    if c.width == Some(width) {
        c
    } else {
        invalidated(width)
    }
}

/// The cache after an update.
pub open spec fn updated(
    c: CacheView,
    lines: Seq<ItemView>,
    scene: SceneView,
    revision: u64,
    width: u16,
) -> CacheView {
    let c = at_width(c, width);
    let kept = kept_entries(c, lines, revision);
    let front = Seq::new(
        kept as nat,
        |i: int| refreshed(lines, scene, width as nat, c.entries[i], i),
    );
    let from = resume_line(c.entries, kept, lines);
    CacheView {
        width: Some(width),
        revision: Some(revision),
        dirty_from: usize::MAX as nat,
        query: c.query,
        entries: front + rebuilt(lines, scene, width as nat, from, kept),
    }
}

/// The pages that the first `n` entries ask for when only the clock has moved.
pub open spec fn kept_asks(
    entries: Seq<CachedView>,
    n: int,
    lines: Seq<ItemView>,
    groups: Seq<Seq<char>>,
    width: nat,
) -> Seq<AskView>
    decreases n,
{
    if n <= 0 || n > entries.len() {
        Seq::empty()
    } else {
        let c = entries[n - 1];
        kept_asks(entries, n - 1, lines, groups, width) + (if c.animated {
            memo_asks(lines, c.entry, groups, width, MemoView { reuse: true, ..c.children })
        } else {
            Seq::empty()
        })
    }
}

/// The pages that an update asks for.
pub open spec fn update_asks(
    c: CacheView,
    lines: Seq<ItemView>,
    groups: Seq<Seq<char>>,
    revision: u64,
    width: u16,
) -> Seq<AskView> {
    let c = at_width(c, width);
    let kept = kept_entries(c, lines, revision);
    kept_asks(c.entries, kept, lines, groups, width as nat) + asks_from(
        lines,
        groups,
        width as nat,
        resume_line(c.entries, kept, lines),
    )
}

proof fn lemma_kept_prepared(
    pages: Seq<PageView>,
    entries: Seq<CachedView>,
    n: int,
    lines: Seq<ItemView>,
    groups: Seq<Seq<char>>,
    width: nat,
)
    requires
        0 <= n <= entries.len(),
        prepared(pages, kept_asks(entries, n, lines, groups, width)),
    ensures
        forall|k: int|
            0 <= k < n && (#[trigger] entries[k]).animated ==> prepared(
                pages,
                memo_asks(
                    lines,
                    entries[k].entry,
                    groups,
                    width,
                    MemoView { reuse: true, ..entries[k].children },
                ),
            ),
    decreases n,
{
    if n > 0 {
        let c = entries[n - 1];
        let here = if c.animated {
            memo_asks(lines, c.entry, groups, width, MemoView { reuse: true, ..c.children })
        } else {
            Seq::empty()
        };
        lemma_prepared_both(pages, kept_asks(entries, n - 1, lines, groups, width), here);
        lemma_kept_prepared(pages, entries, n - 1, lines, groups, width);
    }
}

/// Whether the lines of every entry that an update keeps, and renders again since
/// it moves, are still there.
pub open spec fn keeps_moving_lines(
    c: CacheView,
    lines: Seq<ItemView>,
    revision: u64,
    width: u16,
) -> bool {
    let c = at_width(c, width);
    forall|i: int|
        0 <= i < kept_entries(c, lines, revision) && (#[trigger] c.entries[i]).animated
            ==> c.entries[i].entry.end <= lines.len()
}

pub proof fn lemma_dirty_entry(entries: Seq<CachedView>, i: int, dirty: nat)
    requires
        0 <= i <= entries.len(),
    ensures
        i <= dirty_entry(entries, i, dirty) <= entries.len(),
        forall|k: int|
            i <= k < dirty_entry(entries, i, dirty) ==> (#[trigger] entries[k]).entry.end <= dirty,
    decreases entries.len() - i,
{
    if i < entries.len() && entries[i].entry.end <= dirty {
        lemma_dirty_entry(entries, i + 1, dirty);
    }
}

pub proof fn lemma_kept_entries(c: CacheView, lines: Seq<ItemView>, revision: u64)
    ensures
        0 <= kept_entries(c, lines, revision) <= c.entries.len(),
        forall|k: int|
            0 <= k < kept_entries(c, lines, revision) ==> (#[trigger] c.entries[k]).entry.end
                <= first_dirty(c, revision),
{
    lemma_dirty_entry(c.entries, 0, first_dirty(c, revision));
}

fn spaced_rows(rows: Vec<TranscriptRow>, index: usize, entry: &TranscriptEntry) -> (r: Vec<
    TranscriptRow,
>)
    ensures
        views(r@) == spaced(views(rows@), index as int, entry@),
{
    if index > 0 && !entry.is_child() {
        let mut r: Vec<TranscriptRow> = Vec::new();
        r.push(TranscriptRow::bare(Line::blank()));
        assert(views(r@) =~= seq![bare(blank())]);
        let mut rows: Vec<TranscriptRow> = rows;
        r.append(&mut rows);
        r
    } else {
        rows
    }
}

/// An entry's rows and the blank row that parts it from the entry above.
pub fn spaced_entry_rows(
    lines: &Vec<Line_>,
    entry: &TranscriptEntry,
    index: usize,
    scene: &Scene,
    width: u16,
    children: &mut ChildRowMemo,
) -> (r: Vec<TranscriptRow>)
    requires
        entry_fits(entry@, views(lines@)),
        prepared(
            scene@.pages,
            memo_asks(
                views(lines@),
                entry@,
                scene@.expanded_groups,
                width as nat,
                old(children)@,
            ),
        ),
    ensures
        ({
            let shown = memo_entry_rows(
                views(lines@),
                entry@,
                scene@,
                width as nat,
                old(children)@,
            );
            views(r@) == spaced(shown.0, index as int, entry@) && final(children)@ == shown.1
        }),
{
    let rows: Vec<TranscriptRow> = entry_rows(lines, entry, scene, width, children);
    spaced_rows(rows, index, entry)
}

fn build_entry(lines: &Vec<Line_>, scene: &Scene, width: u16, entry: TranscriptEntry, index: usize) -> (r:
    CachedTranscriptEntry)
    requires
        entry_fits(entry@, views(lines@)),
        prepared(
            scene@.pages,
            entry_asks(views(lines@), entry@, scene@.expanded_groups, width as nat, false),
        ),
    ensures
        r@ == built(views(lines@), scene@, width as nat, entry@, index as int),
{
    let mut children: ChildRowMemo = ChildRowMemo::new();
    let rows: Vec<TranscriptRow> = spaced_entry_rows(
        lines,
        &entry,
        index,
        scene,
        width,
        &mut children,
    );
    let animated: bool = transcript_entry_animated(lines, &entry);
    CachedTranscriptEntry { entry, animated, rows, matches: None, children }
}

impl CachedTranscriptEntry {
    /// Render the entry again: only the clock has moved.
    fn refresh(&mut self, lines: &Vec<Line_>, scene: &Scene, width: u16, index: usize)
        requires
            old(self)@.animated ==> entry_fits(old(self)@.entry, views(lines@)),
            old(self)@.animated ==> prepared(
                scene@.pages,
                memo_asks(
                    views(lines@),
                    old(self)@.entry,
                    scene@.expanded_groups,
                    width as nat,
                    (MemoView { reuse: true, ..old(self)@.children }),
                ),
            ),
        ensures
            final(self)@ == refreshed(
                views(lines@),
                scene@,
                width as nat,
                old(self)@,
                index as int,
            ),
    {
        if self.animated {
            self.children.reuse = true;
            let rows: Vec<TranscriptRow> = spaced_entry_rows(
                lines,
                &self.entry,
                index,
                scene,
                width,
                &mut self.children,
            );
            self.children.reuse = false;
            self.rows = rows;
            self.matches = None;
        }
    }
}

impl TranscriptRenderCache {
    pub fn new() -> (r: TranscriptRenderCache)
        ensures
            r@ == (CacheView {
                width: None,
                revision: None,
                dirty_from: 0,
                query: None,
                entries: Seq::empty(),
            }),
            cache_wf(r@),
    {
        TranscriptRenderCache {
            width: None,
            revision: None,
            dirty_from: 0,
            query: None,
            entries: Vec::new(),
        }
    }

    /// Rows rendered at one width say nothing about another.
    fn invalidate(&mut self)
        ensures
            final(self)@ == (CacheView {
                width: old(self)@.width,
                revision: None,
                dirty_from: 0,
                query: None,
                entries: Seq::empty(),
            }),
    {
        self.revision = None;
        self.dirty_from = 0;
        self.entries.clear();
        self.query = None;
    }

    /// Say that `from` is the lowest line whose rows may have changed at
    /// `revision`, the value that the counter of revisions now has.
    pub fn mark_dirty_from(&mut self, from: usize, revision: u64)
        ensures
            final(self)@ == marked_dirty(old(self)@, from as nat, revision),
    {
        let before: u64 = if revision == 0 {
            u64::MAX
        } else {
            revision - 1
        };
        let chained: bool = match self.revision {
            Some(last) => last == before,
            None => false,
        };
        self.dirty_from = if chained {
            if from < self.dirty_from {
                from
            } else {
                self.dirty_from
            }
        } else {
            0
        };
        self.revision = Some(revision);
    }

    /// How many entries an update keeps.
    fn entries_kept(&self, lines: &Vec<Line_>, revision: u64) -> (r: usize)
        ensures
            r == kept_entries(self@, views(lines@), revision),
            r <= self.entries@.len(),
    {
        let ghost all = self@.entries;
        let dirty: usize = match self.revision {
            Some(last) => if last == revision {
                self.dirty_from
            } else {
                0
            },
            None => 0,
        };
        assert(dirty == first_dirty(self@, revision));
        let mut n: usize = 0;
        while n < self.entries.len() && self.entries[n].entry.end <= dirty
            invariant
                n <= self.entries@.len(),
                all == views(self.entries@),
                dirty_entry(all, 0, dirty as nat) == dirty_entry(all, n as int, dirty as nat),
            decreases self.entries@.len() - n,
        {
            assert(all[n as int] == self.entries@[n as int]@);
            n += 1;
        }
        proof {
            if n < self.entries.len() {
                assert(all[n as int] == self.entries@[n as int]@);
            }
        }
        if n > 0 {
            assert(all[n - 1] == self.entries@[n - 1]@);
            let end: usize = self.entries[n - 1].entry.end;
            if self.entries[n - 1].entry.group.is_some() && end < lines.len() {
                assert(views(lines@)[end as int] == lines@[end as int]@);
                if plain_tool(&lines[end]) {
                    return n - 1;
                }
            }
        }
        n
    }

    /// The pages that an update asks for.
    pub fn pages_asked(
        &self,
        lines: &Vec<Line_>,
        expanded_groups: &Vec<String>,
        revision: u64,
        width: u16,
    ) -> (r: Vec<PageAsk>)
        requires
            cache_wf(self@),
            keeps_moving_lines(self@, views(lines@), revision, width),
        ensures
            views(r@) == update_asks(
                self@,
                views(lines@),
                views(expanded_groups@),
                revision,
                width,
            ),
    {
        let ghost all = views(lines@);
        let ghost groups = views(expanded_groups@);
        let same_width: bool = match self.width {
            Some(w) => w == width,
            None => false,
        };
        if !same_width {
            let r: Vec<PageAsk> = pages_from(lines, expanded_groups, width, 0);
            assert(Seq::<AskView>::empty() + views(r@) =~= views(r@));
            return r;
        }
        let ghost c = self@;
        assert(at_width(c, width) == c);
        let kept: usize = self.entries_kept(lines, revision);
        let n: usize = self.entries.len();
        assert(c.entries.len() == n);
        let wanted: usize = if kept < n {
            assert(c.entries[kept as int] == self.entries@[kept as int]@);
            self.entries[kept].entry.start
        } else if n > 0 {
            assert(c.entries.last() == self.entries@[n - 1]@);
            self.entries[n - 1].entry.end
        } else {
            0
        };
        let from: usize = if wanted <= lines.len() {
            wanted
        } else {
            lines.len()
        };
        assert(from == resume_line(c.entries, kept as int, all));
        let mut r: Vec<PageAsk> = Vec::new();
        let mut i: usize = 0;
        while i < kept
            invariant
                i <= kept <= self.entries@.len(),
                c == self@,
                c.entries == views(self.entries@),
                cache_wf(c),
                all == views(lines@),
                groups == views(expanded_groups@),
                kept == kept_entries(c, all, revision),
                forall|k: int|
                    0 <= k < kept && (#[trigger] c.entries[k]).animated ==> c.entries[k].entry.end
                        <= all.len(),
                views(r@) == kept_asks(c.entries, i as int, all, groups, width as nat),
            decreases kept - i,
        {
            assert(c.entries[i as int] == self.entries@[i as int]@);
            let ghost done = views(r@);
            if self.entries[i].animated {
                proof {
                    lemma_starts(c, i as int);
                }
                let more: Vec<PageAsk> = memo_pages(
                    lines,
                    &self.entries[i].entry,
                    expanded_groups,
                    width,
                    &self.entries[i].children,
                    true,
                );
                append_asks(&mut r, more);
            } else {
                assert(done + Seq::<AskView>::empty() =~= done);
            }
            i += 1;
        }
        append_asks(&mut r, pages_from(lines, expanded_groups, width, from));
        r
    }

    /// Bring the rows up to date with the lines at `revision`.
    pub fn update(&mut self, lines: &Vec<Line_>, scene: &Scene, revision: u64, width: u16)
        requires
            cache_wf(old(self)@),
            keeps_moving_lines(old(self)@, views(lines@), revision, width),
            prepared(
                scene@.pages,
                update_asks(
                    old(self)@,
                    views(lines@),
                    scene@.expanded_groups,
                    revision,
                    width,
                ),
            ),
        ensures
            final(self)@ == updated(old(self)@, views(lines@), scene@, revision, width),
            cache_wf(final(self)@),
    {
        let ghost all = views(lines@);
        let same_width: bool = match self.width {
            Some(w) => w == width,
            None => false,
        };
        if !same_width {
            self.width = Some(width);
            self.invalidate();
        }
        let ghost c = at_width(old(self)@, width);
        assert(self@ == c);
        let resume: usize = self.entries_kept(lines, revision);
        proof {
            lemma_kept_entries(c, all, revision);
        }
        let n: usize = self.entries.len();
        let ghost before = self.entries@;
        assert(c.entries.len() == n);
        let wanted: usize = if resume < n {
            assert(c.entries[resume as int] == before[resume as int]@);
            self.entries[resume].entry.start
        } else if n > 0 {
            assert(c.entries.last() == before[n - 1]@);
            self.entries[n - 1].entry.end
        } else {
            0
        };
        let mut line: usize = if wanted <= lines.len() {
            wanted
        } else {
            lines.len()
        };
        assert(line == resume_line(c.entries, resume as int, all));
        proof {
            let groups = scene@.expanded_groups;
            lemma_prepared_both(
                scene@.pages,
                kept_asks(c.entries, resume as int, all, groups, width as nat),
                asks_from(all, groups, width as nat, line as int),
            );
            lemma_kept_prepared(
                scene@.pages,
                c.entries,
                resume as int,
                all,
                groups,
                width as nat,
            );
        }
        self.entries.truncate(resume);
        assert(self.entries@ =~= before.take(resume as int));
        let ghost front = c.entries.take(resume as int);
        assert(views(self.entries@) =~= front);
        let ghost tail = rebuilt(all, scene@, width as nat, line as int, resume as int);
        assert(views(self.entries@) + tail =~= front + tail);
        while line < lines.len()
            invariant
                line <= lines@.len(),
                all == views(lines@),
                self.width == Some(width),
                query_view(self.query) == c.query,
                resume <= self.entries@.len(),
                front.len() == resume,
                views(self.entries@).take(resume as int) == front,
                prepared(
                    scene@.pages,
                    asks_from(all, scene@.expanded_groups, width as nat, line as int),
                ),
                views(self.entries@) + rebuilt(
                    all,
                    scene@,
                    width as nat,
                    line as int,
                    self.entries@.len() as int,
                ) == front + tail,
            decreases lines@.len() - line,
        {
            let entry: TranscriptEntry = transcript_entry_at(lines, &scene.expanded_groups, line);
            let next: usize = entry.end;
            let index: usize = self.entries.len();
            let ghost done = views(self.entries@);
            proof {
                let groups = scene@.expanded_groups;
                lemma_prepared_both(
                    scene@.pages,
                    entry_asks(all, entry@, groups, width as nat, false),
                    asks_from(all, groups, width as nat, next as int),
                );
            }
            let built: CachedTranscriptEntry = build_entry(lines, scene, width, entry, index);
            self.entries.push(built);
            assert(views(self.entries@) + rebuilt(
                all,
                scene@,
                width as nat,
                next as int,
                index + 1,
            ) =~= done + rebuilt(all, scene@, width as nat, line as int, index as int));
            assert(views(self.entries@).take(resume as int) =~= done.take(resume as int));
            line = next;
        }
        assert(views(self.entries@) =~= front + tail);
        let ghost whole = views(self.entries@);
        proof {
            assert forall|k: int|
                0 <= k < resume && (#[trigger] self.entries@[k])@.animated implies entry_fits(
                self.entries@[k]@.entry,
                all,
            ) by {
                assert(self.entries@[k]@ == whole[k]);
                assert(whole[k] == c.entries[k]);
                assert(c.entries[k].entry.end <= all.len());
                lemma_starts(c, k);
            }
            assert forall|k: int|
                0 <= k < resume && (#[trigger] self.entries@[k])@.animated implies prepared(
                scene@.pages,
                memo_asks(
                    all,
                    self.entries@[k]@.entry,
                    scene@.expanded_groups,
                    width as nat,
                    (MemoView { reuse: true, ..self.entries@[k]@.children }),
                ),
            ) by {
                assert(self.entries@[k]@ == whole[k]);
                assert(whole[k] == c.entries[k]);
            }
        }
        refresh_kept(&mut self.entries, lines, scene, width, resume);
        proof {
            let u = updated(old(self)@, all, scene@, revision, width);
            assert forall|k: int| 0 <= k < u.entries.len() implies (#[trigger] views(
                self.entries@,
            )[k]) == u.entries[k] by {
                assert(views(self.entries@)[k] == self.entries@[k]@);
                if k < resume {
                    assert(whole[k] == c.entries[k]);
                } else {
                    assert(whole[k] == tail[k - resume]);
                }
            }
        }
        self.revision = Some(revision);
        self.dirty_from = usize::MAX;
        assert(views(self.entries@) =~= updated(
            old(self)@,
            all,
            scene@,
            revision,
            width,
        ).entries);
        proof {
            lemma_updated_wf(old(self)@, all, scene@, revision, width);
        }
    }
}

/// Render the first `kept` entries again where they move with the clock.
fn refresh_kept(
    entries: &mut Vec<CachedTranscriptEntry>,
    lines: &Vec<Line_>,
    scene: &Scene,
    width: u16,
    kept: usize,
)
    requires
        kept <= old(entries)@.len(),
        forall|k: int|
            0 <= k < kept && (#[trigger] old(entries)@[k])@.animated ==> entry_fits(
                old(entries)@[k]@.entry,
                views(lines@),
            ),
        forall|k: int|
            0 <= k < kept && (#[trigger] old(entries)@[k])@.animated ==> prepared(
                scene@.pages,
                memo_asks(
                    views(lines@),
                    old(entries)@[k]@.entry,
                    scene@.expanded_groups,
                    width as nat,
                    (MemoView { reuse: true, ..old(entries)@[k]@.children }),
                ),
            ),
    ensures
        final(entries)@.len() == old(entries)@.len(),
        forall|k: int|
            0 <= k < kept ==> (#[trigger] final(entries)@[k])@ == refreshed(
                views(lines@),
                scene@,
                width as nat,
                old(entries)@[k]@,
                k,
            ),
        forall|k: int|
            kept <= k < old(entries)@.len() ==> #[trigger] final(entries)@[k] == old(entries)@[k],
{
    let mut i: usize = 0;
    while i < kept
        invariant
            i <= kept <= entries@.len(),
            entries@.len() == old(entries)@.len(),
            forall|k: int|
                0 <= k < kept && (#[trigger] old(entries)@[k])@.animated ==> entry_fits(
                    old(entries)@[k]@.entry,
                    views(lines@),
                ),
            forall|k: int|
                0 <= k < kept && (#[trigger] old(entries)@[k])@.animated ==> prepared(
                    scene@.pages,
                    memo_asks(
                        views(lines@),
                        old(entries)@[k]@.entry,
                        scene@.expanded_groups,
                        width as nat,
                        (MemoView { reuse: true, ..old(entries)@[k]@.children }),
                    ),
                ),
            forall|k: int| i <= k < entries@.len() ==> #[trigger] entries@[k] == old(entries)@[k],
            forall|k: int|
                0 <= k < i ==> (#[trigger] entries@[k])@ == refreshed(
                    views(lines@),
                    scene@,
                    width as nat,
                    old(entries)@[k]@,
                    k,
                ),
        decreases kept - i,
    {
        let ghost before = entries@;
        assert(entries@[i as int] == old(entries)@[i as int]);
        entries[i].refresh(lines, scene, width, i);
        assert(forall|k: int| 0 <= k < before.len() && k != i ==> entries@[k] == before[k]);
        i += 1;
    }
}

/// Whether a line is a call of no agent.
fn plain_tool(line: &Line_) -> (r: bool)
    ensures
        r == is_plain_tool(line@),
{
    match line {
        Line_::Tool(row) => match &row.kind {
            ToolKind::Tool => true,
            ToolKind::Agent { .. } => false,
        },
        _ => false,
    }
}

proof fn lemma_starts(c: CacheView, i: int)
    requires
        cache_wf(c),
        0 <= i < c.entries.len(),
    ensures
        0 <= c.entries[i].entry.start < c.entries[i].entry.end,
        follows(c.entries, i, 0),
    decreases i,
{
    assert(follows(c.entries, i, 0));
    if i > 0 {
        lemma_starts(c, i - 1);
    }
}

proof fn lemma_ends_grow(c: CacheView, i: int, j: int)
    requires
        cache_wf(c),
        0 <= i <= j < c.entries.len(),
    ensures
        c.entries[i].entry.end <= c.entries[j].entry.end,
    decreases j - i,
{
    if i < j {
        lemma_ends_grow(c, i, j - 1);
        assert(follows(c.entries, j, 0));
    }
}

pub proof fn lemma_rebuilt(lines: Seq<ItemView>, scene: SceneView, width: nat, from: int, index: int)
    requires
        0 <= from <= lines.len(),
    ensures
        ({
            let r = rebuilt(lines, scene, width, from, index);
            &&& r.map_values(|c: CachedView| c.entry) == entries_from(
                lines,
                scene.expanded_groups,
                from,
            )
            &&& forall|i: int| 0 <= i < r.len() ==> #[trigger] follows(r, i, from)
            &&& forall|i: int| 0 <= i < r.len() ==> (#[trigger] r[i]).matches is None
        }),
    decreases lines.len() - from,
{
    let r = rebuilt(lines, scene, width, from, index);
    let entry_of = |c: CachedView| c.entry;
    if from < lines.len() {
        lemma_run_end(lines, from);
        let e = entry_at(lines, scene.expanded_groups, from);
        lemma_rebuilt(lines, scene, width, e.end, index + 1);
        let rest = rebuilt(lines, scene, width, e.end, index + 1);
        assert(r.map_values(entry_of) =~= seq![e] + rest.map_values(entry_of));
        assert forall|i: int| 0 <= i < r.len() implies #[trigger] follows(r, i, from) by {
            if i > 0 {
                assert(follows(rest, i - 1, e.end));
                assert(r[i] == rest[i - 1]);
                if i > 1 {
                    assert(r[i - 1] == rest[i - 2]);
                }
            }
        }
        assert forall|i: int| 0 <= i < r.len() implies (#[trigger] r[i]).matches is None by {
            if i > 0 {
                assert(r[i] == rest[i - 1]);
            }
        }
    } else {
        assert(r.map_values(entry_of) =~= Seq::empty());
    }
}

/// What an update keeps ends where what it renders starts.
pub proof fn lemma_resume_line(c: CacheView, lines: Seq<ItemView>, kept: int)
    requires
        cache_wf(c),
        0 <= kept <= c.entries.len(),
        forall|i: int| 0 <= i < kept ==> (#[trigger] c.entries[i]).entry.end <= lines.len(),
    ensures
        0 <= resume_line(c.entries, kept, lines) <= lines.len(),
        resume_line(c.entries, kept, lines) == (if kept == 0 {
            0
        } else {
            c.entries[kept - 1].entry.end
        }),
{
    if kept > 0 {
        assert(c.entries[kept - 1].entry.end <= lines.len());
        lemma_starts(c, kept - 1);
    }
    if kept < c.entries.len() {
        lemma_starts(c, kept);
    }
}

proof fn lemma_updated_wf(
    c0: CacheView,
    lines: Seq<ItemView>,
    scene: SceneView,
    revision: u64,
    width: u16,
)
    requires
        cache_wf(c0),
    ensures
        cache_wf(updated(c0, lines, scene, revision, width)),
{
    let c = at_width(c0, width);
    let kept = kept_entries(c, lines, revision);
    lemma_kept_entries(c, lines, revision);
    let from = resume_line(c.entries, kept, lines);
    if kept > 0 && c.entries[kept - 1].entry.end > lines.len() {
        lemma_starts(c, c.entries.len() - 1);
        lemma_ends_grow(c, kept - 1, c.entries.len() - 1);
        if kept < c.entries.len() {
            assert(follows(c.entries, kept, 0));
        }
        assert(from == lines.len());
    } else {
        assert forall|i: int| 0 <= i < kept implies (#[trigger] c.entries[i]).entry.end
            <= lines.len() by {
            lemma_ends_grow(c, i, kept - 1);
        }
        lemma_resume_line(c, lines, kept);
    }
    lemma_rebuilt(lines, scene, width as nat, from, kept);
    let u = updated(c0, lines, scene, revision, width);
    let tail = rebuilt(lines, scene, width as nat, from, kept);
    assert forall|i: int| 0 <= i < u.entries.len() implies #[trigger] follows(u.entries, i, 0) by {
        if i < kept {
            assert(follows(c.entries, i, 0));
            assert(u.entries[i].entry == c.entries[i].entry);
            if i > 0 {
                assert(u.entries[i - 1].entry == c.entries[i - 1].entry);
            }
        } else {
            assert(follows(tail, i - kept, from));
            assert(u.entries[i] == tail[i - kept]);
            if i > kept {
                assert(u.entries[i - 1] == tail[i - kept - 1]);
            } else if i > 0 {
                assert(u.entries[i - 1].entry == c.entries[i - 1].entry);
            }
        }
    }
    assert forall|i: int|
        0 <= i < u.entries.len() && u.query is Some && (
        #[trigger] u.entries[i]).matches is Some implies u.entries[i].matches == Some(
        entry_matches(u.entries[i].rows, lowercase(u.query->0)),
    ) by {
        if i < kept {
            assert(u.entries[i] == refreshed(lines, scene, width as nat, c.entries[i], i));
            assert(c.entries[i].matches is Some);
        } else {
            assert(u.entries[i] == tail[i - kept]);
        }
    }
}

/// The rows of the first `n` entries.
pub open spec fn rows_upto(entries: Seq<CachedView>, n: int) -> Seq<RowView>
    decreases n,
{
    if n <= 0 || n > entries.len() {
        Seq::empty()
    } else {
        rows_upto(entries, n - 1) + entries[n - 1].rows
    }
}

/// The rows of the transcript, what trails it, and the blank rows below.
pub open spec fn all_rows(c: CacheView, trailing: Seq<LineView>) -> Seq<RowView> {
    rows_upto(c.entries, c.entries.len() as int) + trailing.map_values(|l: LineView| bare(l))
        + seq![bare(blank())]
}

/// The part of `rows` from `start` on, at most `count` of them.
pub open spec fn window(rows: Seq<RowView>, start: int, count: int) -> Seq<RowView> {
    let from = if start <= rows.len() {
        start
    } else {
        rows.len() as int
    };
    let to = if from + count <= rows.len() {
        from + count
    } else {
        rows.len() as int
    };
    rows.subrange(from, to)
}

/// The numbers as integers.
pub open spec fn ints(s: Seq<usize>) -> Seq<int> {
    s.map_values(|i: usize| i as int)
}

/// The offsets counted from `base`.
pub open spec fn shifted(offsets: Seq<usize>, base: int) -> Seq<int> {
    offsets.map_values(|offset: usize| base + offset)
}

/// The matching rows of the first `n` entries, as rows of the transcript.
pub open spec fn matches_upto(entries: Seq<CachedView>, n: int, needle: Seq<char>) -> Seq<int>
    decreases n,
{
    if n <= 0 || n > entries.len() {
        Seq::empty()
    } else {
        let base = rows_upto(entries, n - 1).len() as int;
        matches_upto(entries, n - 1, needle) + shifted(
            entry_matches(entries[n - 1].rows, needle),
            base,
        )
    }
}

/// The text of a row's spans.
fn text_of(spans: &Vec<Span>) -> (r: String)
    ensures
        r@ == spans_text(views(spans@)),
{
    let ghost all = views(spans@);
    let mut r: String = String::new();
    let mut i: usize = 0;
    assert(all.take(0) =~= Seq::empty());
    while i < spans.len()
        invariant
            i <= spans@.len(),
            all == views(spans@),
            r@ == spans_text(all.take(i as int)),
        decreases spans@.len() - i,
    {
        assert(all.take(i + 1).drop_last() =~= all.take(i as int));
        assert(all[i as int] == spans@[i as int]@);
        r.push_str(spans[i].content.as_str());
        i += 1;
    }
    assert(all.take(i as int) =~= all);
    r
}

/// The rows whose text holds a needle that is in lowercase already.
pub fn matching_row_offsets(rows: &Vec<TranscriptRow>, needle: &str) -> (r: Vec<usize>)
    ensures
        r@ == entry_matches(views(rows@), needle@),
{
    let ghost all = views(rows@);
    let mut r: Vec<usize> = Vec::new();
    let mut i: usize = 0;
    while i < rows.len()
        invariant
            i <= rows@.len(),
            all == views(rows@),
            r@ == matching_offsets(all, i as int, needle@),
        decreases rows@.len() - i,
    {
        assert(all[i as int] == rows@[i as int]@);
        let text: String = text_of(&rows[i].line.spans);
        if contains(to_lowercase(text.as_str()).as_str(), needle) {
            r.push(i);
        }
        i += 1;
    }
    r
}

proof fn lemma_matching_offsets(rows: Seq<RowView>, n: int, needle: Seq<char>)
    requires
        0 <= n <= rows.len() <= usize::MAX,
    ensures
        forall|i: int|
            0 <= i < matching_offsets(rows, n, needle).len() ==> (#[trigger] matching_offsets(
                rows,
                n,
                needle,
            )[i]) < n,
    decreases n,
{
    if n > 0 {
        lemma_matching_offsets(rows, n - 1, needle);
        let before = matching_offsets(rows, n - 1, needle);
        let now = matching_offsets(rows, n, needle);
        assert forall|i: int| 0 <= i < now.len() implies (#[trigger] now[i]) < n by {
            if i < before.len() {
                assert(now[i] == before[i]);
            }
        }
    }
}

proof fn lemma_rows_upto(entries: Seq<CachedView>, n: int)
    requires
        0 <= n <= entries.len(),
    ensures
        rows_upto(entries, n).len() <= rows_upto(entries, entries.len() as int).len(),
    decreases entries.len() - n,
{
    if n < entries.len() {
        lemma_rows_upto(entries, n + 1);
    }
}

proof fn lemma_rows_same(a: Seq<CachedView>, b: Seq<CachedView>, n: int)
    requires
        a.len() == b.len(),
        forall|k: int| 0 <= k < a.len() ==> (#[trigger] a[k]).rows == b[k].rows,
    ensures
        rows_upto(a, n) == rows_upto(b, n),
    decreases n,
{
    if 0 < n <= a.len() {
        lemma_rows_same(a, b, n - 1);
        assert(a[n - 1].rows == b[n - 1].rows);
    }
}

proof fn lemma_matches_same(a: Seq<CachedView>, b: Seq<CachedView>, n: int, needle: Seq<char>)
    requires
        a.len() == b.len(),
        forall|k: int| 0 <= k < a.len() ==> (#[trigger] a[k]).rows == b[k].rows,
    ensures
        matches_upto(a, n, needle) == matches_upto(b, n, needle),
    decreases n,
{
    if 0 < n <= a.len() {
        lemma_matches_same(a, b, n - 1, needle);
        lemma_rows_same(a, b, n - 1);
        assert(a[n - 1].rows == b[n - 1].rows);
    }
}

/// The cache with the rows of every entry looked through for `query`.
pub open spec fn searched(c: CacheView, query: Seq<char>) -> CacheView {
    CacheView {
        query: Some(query),
        entries: c.entries.map_values(
            |e: CachedView|
                CachedView { matches: Some(entry_matches(e.rows, lowercase(query))), ..e },
        ),
        ..c
    }
}

impl CachedTranscriptEntry {
    /// Look for the needle, unless that was done.
    fn search(&mut self, needle: &str)
        requires
            old(self)@.matches is Some ==> old(self)@.matches == Some(
                entry_matches(old(self)@.rows, needle@),
            ),
        ensures
            final(self)@ == (CachedView {
                matches: Some(entry_matches(old(self)@.rows, needle@)),
                ..old(self)@
            }),
    {
        if self.matches.is_none() {
            self.matches = Some(matching_row_offsets(&self.rows, needle));
        }
    }
}

impl TranscriptRenderCache {
    /// How many timelines were rendered for the entries that are kept, as far as
    /// they can be counted.
    pub fn child_renders(&self) -> (r: usize)
        ensures
            r == renders_upto(self@.entries, self@.entries.len() as int),
    {
        let ghost all = self@.entries;
        let mut r: usize = 0;
        let mut i: usize = 0;
        while i < self.entries.len()
            invariant
                i <= self.entries@.len(),
                all == views(self.entries@),
                r == renders_upto(all, i as int),
            decreases self.entries@.len() - i,
        {
            assert(all[i as int] == self.entries@[i as int]@);
            r = r.saturating_add(self.entries[i].children.renders);
            i += 1;
        }
        r
    }

    /// The rows of the transcript, with the blank ones below.
    pub fn row_count(&self) -> (r: usize)
        requires
            all_rows(self@, Seq::empty()).len() <= usize::MAX,
        ensures
            r == all_rows(self@, Seq::empty()).len(),
    {
        let ghost all = self@.entries;
        let mut r: usize = 0;
        let mut i: usize = 0;
        while i < self.entries.len()
            invariant
                i <= self.entries@.len(),
                all == views(self.entries@),
                rows_upto(all, all.len() as int).len() < usize::MAX,
                r == rows_upto(all, i as int).len(),
            decreases self.entries@.len() - i,
        {
            assert(all[i as int] == self.entries@[i as int]@);
            proof {
                lemma_rows_upto(all, i + 1);
            }
            r = r + self.entries[i].rows.len();
            i += 1;
        }
        r + TAIL_PADDING_ROWS
    }

    /// Whether the transcript has said anything yet.
    pub fn is_empty(&self) -> (r: bool)
        ensures
            r == (rows_upto(self@.entries, self@.entries.len() as int).len() == 0),
    {
        let ghost all = self@.entries;
        let mut i: usize = 0;
        while i < self.entries.len()
            invariant
                i <= self.entries@.len(),
                all == views(self.entries@),
                rows_upto(all, i as int).len() == 0,
            decreases self.entries@.len() - i,
        {
            assert(all[i as int] == self.entries@[i as int]@);
            if self.entries[i].rows.len() > 0 {
                proof {
                    lemma_rows_upto(all, i + 1);
                }
                return false;
            }
            i += 1;
        }
        true
    }

    /// The rows whose text holds the query, case apart, in order. What was found
    /// in an entry is kept, so that a change has only what it rendered looked
    /// through again.
    pub fn matching_rows(&mut self, query: &str) -> (r: Vec<usize>)
        requires
            cache_wf(old(self)@),
            all_rows(old(self)@, Seq::empty()).len() <= usize::MAX,
        ensures
            cache_wf(final(self)@),
            all_white(query@) ==> r@.len() == 0 && final(self)@ == (CacheView {
                query: None,
                ..old(self)@
            }),
            !all_white(query@) ==> {
                &&& ints(r@) == matches_upto(
                    old(self)@.entries,
                    old(self)@.entries.len() as int,
                    lowercase(query@),
                )
                &&& final(self)@ == searched(old(self)@, query@)
            },
    {
        if is_blank(query) {
            self.query = None;
            return Vec::new();
        }
        let ghost c = old(self)@;
        let known: bool = match &self.query {
            Some(last) => same(last.as_str(), query),
            None => false,
        };
        let needle: String = to_lowercase(query);
        assert(known ==> c.query == Some(query@));
        proof {
            assert forall|k: int|
                known && 0 <= k < self.entries@.len() && (
                #[trigger] self.entries@[k])@.matches is Some implies self.entries@[k]@.matches
                == Some(entry_matches(self.entries@[k]@.rows, needle@)) by {
                assert(c.entries[k] == self.entries@[k]@);
            }
        }
        search_all(&mut self.entries, known, needle.as_str());
        proof {
            let u = searched(c, query@).entries;
            assert forall|k: int| 0 <= k < u.len() implies (#[trigger] views(self.entries@)[k])
                == u[k] by {
                assert(views(self.entries@)[k] == self.entries@[k]@);
                assert(c.entries[k] == old(self).entries@[k]@);
            }
            assert(views(self.entries@) =~= u);
            assert forall|k: int| 0 <= k < c.entries.len() implies (#[trigger] c.entries[k]).rows
                == views(self.entries@)[k].rows by {
                assert(views(self.entries@)[k] == u[k]);
            }
            lemma_matches_same(
                c.entries,
                views(self.entries@),
                c.entries.len() as int,
                needle@,
            );
            lemma_rows_same(c.entries, views(self.entries@), c.entries.len() as int);
        }
        let r: Vec<usize> = collect_matches(&self.entries, needle.as_str());
        self.query = Some(own(query));
        proof {
            lemma_searched_wf(c, query@);
        }
        r
    }

    /// The rows from `start` on, at most `count`, of the transcript with
    /// `trailing` behind it and the blank rows below.
    pub fn visible_rows(&self, start: usize, count: usize, trailing: &Vec<Line>) -> (r: Vec<
        TranscriptRow,
    >)
        ensures
            views(r@) == window(all_rows(self@, views(trailing@)), start as int, count as int),
    {
        let ghost all = self@.entries;
        let mut view: Window = Window { skip: start, remaining: count, rows: Vec::new() };
        let mut i: usize = 0;
        assert(views(view.rows@) =~= window(rows_upto(all, 0), start as int, count as int));
        while i < self.entries.len()
            invariant
                i <= self.entries@.len(),
                all == views(self.entries@),
                view.shows(rows_upto(all, i as int), start as int, count as int),
            decreases self.entries@.len() - i,
        {
            assert(all[i as int] == self.entries@[i as int]@);
            view.add(
                &self.entries[i].rows,
                Ghost(rows_upto(all, i as int)),
                Ghost(start as int),
                Ghost(count as int),
            );
            i += 1;
        }
        let mut behind: Vec<TranscriptRow> = Vec::new();
        let ghost tail = views(trailing@).map_values(|l: LineView| bare(l));
        let mut k: usize = 0;
        while k < trailing.len()
            invariant
                k <= trailing@.len(),
                tail == views(trailing@).map_values(|l: LineView| bare(l)),
                views(behind@) == tail.take(k as int),
            decreases trailing@.len() - k,
        {
            behind.push(TranscriptRow::bare(trailing[k].copy()));
            k += 1;
            assert(views(behind@) =~= tail.take(k as int));
        }
        assert(tail.take(k as int) =~= tail);
        let ghost upto = rows_upto(all, all.len() as int);
        view.add(&behind, Ghost(upto), Ghost(start as int), Ghost(count as int));
        let mut padding: Vec<TranscriptRow> = Vec::new();
        padding.push(TranscriptRow::bare(Line::blank()));
        assert(views(padding@) =~= seq![bare(blank())]);
        view.add(&padding, Ghost(upto + tail), Ghost(start as int), Ghost(count as int));
        view.rows
    }
}

proof fn lemma_searched_wf(c: CacheView, query: Seq<char>)
    requires
        cache_wf(c),
    ensures
        cache_wf(searched(c, query)),
{
    let u = searched(c, query);
    assert forall|i: int| 0 <= i < u.entries.len() implies #[trigger] follows(u.entries, i, 0) by {
        assert(follows(c.entries, i, 0));
        assert(c.entries[i].entry == u.entries[i].entry);
        if i > 0 {
            assert(c.entries[i - 1].entry == u.entries[i - 1].entry);
        }
    }
}

/// Look through every entry; `known` says that what they remember was found with
/// the same needle.
fn search_all(entries: &mut Vec<CachedTranscriptEntry>, known: bool, needle: &str)
    requires
        known ==> forall|k: int|
            0 <= k < old(entries)@.len() && (#[trigger] old(entries)@[k])@.matches is Some ==> old(
                entries,
            )@[k]@.matches == Some(entry_matches(old(entries)@[k]@.rows, needle@)),
    ensures
        final(entries)@.len() == old(entries)@.len(),
        forall|k: int|
            0 <= k < old(entries)@.len() ==> (#[trigger] final(entries)@[k])@ == (CachedView {
                matches: Some(entry_matches(old(entries)@[k]@.rows, needle@)),
                ..old(entries)@[k]@
            }),
{
    let n: usize = entries.len();
    let mut i: usize = 0;
    while i < n
        invariant
            i <= n,
            n == entries@.len(),
            n == old(entries)@.len(),
            known ==> forall|k: int|
                0 <= k < n && (#[trigger] old(entries)@[k])@.matches is Some ==> old(
                    entries,
                )@[k]@.matches == Some(entry_matches(old(entries)@[k]@.rows, needle@)),
            forall|k: int| i <= k < n ==> #[trigger] entries@[k] == old(entries)@[k],
            forall|k: int|
                0 <= k < i ==> (#[trigger] entries@[k])@ == (CachedView {
                    matches: Some(entry_matches(old(entries)@[k]@.rows, needle@)),
                    ..old(entries)@[k]@
                }),
        decreases n - i,
    {
        let ghost before = entries@;
        assert(entries@[i as int] == old(entries)@[i as int]);
        if !known {
            entries[i].matches = None;
        }
        entries[i].search(needle);
        assert(forall|k: int| 0 <= k < n && k != i ==> entries@[k] == before[k]);
        i += 1;
    }
}

fn push_shifted(out: &mut Vec<usize>, offsets: &Vec<usize>, base: usize, count: usize)
    requires
        base + count <= usize::MAX,
        forall|j: int| 0 <= j < offsets@.len() ==> (#[trigger] offsets@[j]) < count,
    ensures
        ints(final(out)@) == ints(old(out)@) + shifted(offsets@, base as int),
{
    let ghost done = ints(out@);
    let ghost new = shifted(offsets@, base as int);
    let mut k: usize = 0;
    assert(done + new.take(0) =~= done);
    while k < offsets.len()
        invariant
            k <= offsets@.len(),
            base + count <= usize::MAX,
            forall|j: int| 0 <= j < offsets@.len() ==> (#[trigger] offsets@[j]) < count,
            new == shifted(offsets@, base as int),
            ints(out@) == done + new.take(k as int),
        decreases offsets@.len() - k,
    {
        assert(offsets@[k as int] < count);
        let ghost before = out@;
        out.push(base + offsets[k]);
        assert(ints(out@) =~= ints(before).push(base + offsets@[k as int]));
        k += 1;
        assert(ints(out@) =~= done + new.take(k as int));
    }
    assert(new.take(k as int) =~= new);
}

fn collect_matches(entries: &Vec<CachedTranscriptEntry>, needle: &str) -> (r: Vec<usize>)
    requires
        rows_upto(views(entries@), entries@.len() as int).len() < usize::MAX,
        forall|k: int|
            0 <= k < entries@.len() ==> (#[trigger] entries@[k])@.matches == Some(
                entry_matches(entries@[k]@.rows, needle@),
            ),
    ensures
        ints(r@) == matches_upto(views(entries@), entries@.len() as int, needle@),
{
    let ghost all = views(entries@);
    let mut r: Vec<usize> = Vec::new();
    let mut base: usize = 0;
    let mut i: usize = 0;
    assert(ints(r@) =~= Seq::empty());
    while i < entries.len()
        invariant
            i <= entries@.len(),
            all == views(entries@),
            rows_upto(all, all.len() as int).len() < usize::MAX,
            forall|k: int|
                0 <= k < entries@.len() ==> (#[trigger] entries@[k])@.matches == Some(
                    entry_matches(entries@[k]@.rows, needle@),
                ),
            base == rows_upto(all, i as int).len(),
            ints(r@) == matches_upto(all, i as int, needle@),
        decreases entries@.len() - i,
    {
        assert(all[i as int] == entries@[i as int]@);
        let count: usize = entries[i].rows.len();
        proof {
            let rows = all[i as int].rows;
            lemma_matching_offsets(rows, rows.len() as int, needle@);
            lemma_rows_upto(all, i + 1);
        }
        if let Some(found) = &entries[i].matches {
            push_shifted(&mut r, found, base, count);
        }
        base = base + count;
        i += 1;
    }
    r
}

/// The timelines rendered for the first `n` entries, as far as they can be
/// counted.
pub open spec fn renders_upto(entries: Seq<CachedView>, n: int) -> nat
    decreases n,
{
    if n <= 0 || n > entries.len() {
        0
    } else {
        let sum = renders_upto(entries, n - 1) + entries[n - 1].children.renders;
        if sum <= usize::MAX {
            sum
        } else {
            usize::MAX as nat
        }
    }
}

/// A part of a run of rows, taken while the run goes by.
struct Window {
    skip: usize,
    remaining: usize,
    rows: Vec<TranscriptRow>,
}

impl Window {
    /// What has been taken of the rows that went by.
    spec fn shows(self, passed: Seq<RowView>, start: int, count: int) -> bool {
        &&& views(self.rows@) == window(passed, start, count)
        &&& self.skip == (if passed.len() <= start {
            start - passed.len()
        } else {
            0
        })
        &&& self.remaining == count - views(self.rows@).len()
    }

    fn add(
        &mut self,
        rows: &Vec<TranscriptRow>,
        Ghost(passed): Ghost<Seq<RowView>>,
        Ghost(start): Ghost<int>,
        Ghost(count): Ghost<int>,
    )
        requires
            old(self).shows(passed, start, count),
            0 <= start,
            0 <= count,
        ensures
            final(self).shows(passed + views(rows@), start, count),
    {
        let ghost all = passed + views(rows@);
        let ghost before = views(self.rows@);
        assert(views(rows@).len() == rows@.len());
        if self.remaining == 0 {
            self.skip = self.skip.saturating_sub(rows.len());
            assert(window(all, start, count) =~= before);
        } else if self.skip >= rows.len() {
            self.skip = self.skip - rows.len();
            assert(window(all, start, count) =~= before);
        } else {
            let available: usize = rows.len() - self.skip;
            let take: usize = if available <= self.remaining {
                available
            } else {
                self.remaining
            };
            extend_rows(&mut self.rows, rows, self.skip, self.skip + take);
            assert(window(all, start, count) =~= before + views(rows@).subrange(
                self.skip as int,
                self.skip + take,
            ));
            self.remaining = self.remaining - take;
            self.skip = 0;
        }
    }
}

/// The entries of a cache without their rows.
pub open spec fn cached_entries(c: CacheView) -> Seq<EntryView> {
    c.entries.map_values(|e: CachedView| e.entry)
}

/// Two transcripts are the same before line `n`: both reach it, or they have the
/// same length.
pub open spec fn agree_before(old_lines: Seq<ItemView>, lines: Seq<ItemView>, n: nat) -> bool {
    &&& old_lines.len() == lines.len() || old_lines.len() >= n && lines.len() >= n
    &&& forall|i: int| 0 <= i < n && i < old_lines.len() ==> #[trigger] old_lines[i] == lines[i]
}

/// A change that no mark accounts for, or another width, has every entry
/// rendered afresh.
pub proof fn law_unmarked_change_renders_everything(
    c: CacheView,
    lines: Seq<ItemView>,
    scene: SceneView,
    revision: u64,
    width: u16,
)
    requires
        cache_wf(c),
        c.width != Some(width) || c.revision != Some(revision),
    ensures
        updated(c, lines, scene, revision, width).entries == rebuilt(
            lines,
            scene,
            width as nat,
            0,
            0,
        ),
{
    let w = at_width(c, width);
    if w.entries.len() > 0 {
        assert(follows(w.entries, 0, 0));
    }
    assert(dirty_entry(w.entries, 0, 0) == 0);
    assert(kept_entries(w, lines, revision) == 0);
    assert(resume_line(w.entries, 0, lines) == 0);
    let u = updated(c, lines, scene, revision, width);
    assert(u.entries =~= rebuilt(lines, scene, width as nat, 0, 0));
}

/// Where the marks name every change, an update leaves the entries that the
/// transcript falls into: a call that joins a group at its end is never left
/// beside it.
pub proof fn law_marked_changes_keep_the_entries_right(
    c: CacheView,
    old_lines: Seq<ItemView>,
    old_groups: Seq<Seq<char>>,
    lines: Seq<ItemView>,
    scene: SceneView,
    revision: u64,
    width: u16,
)
    requires
        cache_wf(c),
        c.width == Some(width),
        c.revision == Some(revision),
        cached_entries(c) == entries_from(old_lines, old_groups, 0),
        agree_before(old_lines, lines, c.dirty_from),
        forall|i: int|
            0 <= i < c.entries.len() && (#[trigger] c.entries[i]).entry.end <= c.dirty_from
                && c.entries[i].entry.group is Some ==> scene.expanded_groups.contains(
                c.entries[i].entry.group->0.id,
            ) == c.entries[i].entry.group->0.expanded,
    ensures
        cached_entries(updated(c, lines, scene, revision, width)) == entries_from(
            lines,
            scene.expanded_groups,
            0,
        ),
{
    let kept = kept_entries(c, lines, revision);
    lemma_kept_entries(c, lines, revision);
    assert forall|i: int| 0 <= i < kept implies (#[trigger] c.entries[i]).entry.end
        <= lines.len() by {
        assert(c.entries[i].entry.end <= c.dirty_from);
        lemma_entry_of(old_lines, old_groups, 0, i);
        assert(cached_entries(c)[i] == c.entries[i].entry);
        let e = c.entries[i].entry;
        assert(0 <= e.end - 1 < c.dirty_from);
        assert(e.end - 1 < old_lines.len());
        assert(old_lines[e.end - 1] == lines[e.end - 1]);
    }
    lemma_resume_line(c, lines, kept);
    lemma_kept_prefix(c, old_lines, old_groups, lines, scene, revision, kept);
    let from = resume_line(c.entries, kept, lines);
    lemma_rebuilt(lines, scene, width as nat, from, kept);
    let u = updated(c, lines, scene, revision, width);
    let tail = rebuilt(lines, scene, width as nat, from, kept);
    assert(cached_entries(u) =~= cached_entries(c).take(kept) + tail.map_values(
        |e: CachedView| e.entry,
    ));
}

/// Entry number `k` of the entries from `from` on is the one that begins where
/// it begins, and it lies within the lines.
pub proof fn lemma_entry_of(lines: Seq<ItemView>, groups: Seq<Seq<char>>, from: int, k: int)
    requires
        0 <= from <= lines.len(),
        0 <= k < entries_from(lines, groups, from).len(),
    ensures
        ({
            let e = entries_from(lines, groups, from)[k];
            &&& from <= e.start < e.end <= lines.len()
            &&& e == entry_at(lines, groups, e.start)
        }),
    decreases lines.len() - from,
{
    lemma_run_end(lines, from);
    let e = entry_at(lines, groups, from);
    if k > 0 {
        lemma_entry_of(lines, groups, e.end, k - 1);
        assert(entries_from(lines, groups, from)[k] == entries_from(lines, groups, e.end)[k - 1]);
    }
}

/// The entries kept by an update are the first of the new transcript.
proof fn lemma_kept_prefix(
    c: CacheView,
    old_lines: Seq<ItemView>,
    old_groups: Seq<Seq<char>>,
    lines: Seq<ItemView>,
    scene: SceneView,
    revision: u64,
    k: int,
)
    requires
        cache_wf(c),
        c.revision == Some(revision),
        cached_entries(c) == entries_from(old_lines, old_groups, 0),
        agree_before(old_lines, lines, c.dirty_from),
        forall|i: int|
            0 <= i < c.entries.len() && (#[trigger] c.entries[i]).entry.end <= c.dirty_from
                && c.entries[i].entry.group is Some ==> scene.expanded_groups.contains(
                c.entries[i].entry.group->0.id,
            ) == c.entries[i].entry.group->0.expanded,
        0 <= k <= kept_entries(c, lines, revision),
    ensures
        entries_from(lines, scene.expanded_groups, 0) == cached_entries(c).take(k) + entries_from(
            lines,
            scene.expanded_groups,
            if k == 0 {
                0
            } else {
                c.entries[k - 1].entry.end
            },
        ),
    decreases k,
{
    let groups = scene.expanded_groups;
    lemma_kept_entries(c, lines, revision);
    if k == 0 {
        assert(cached_entries(c).take(0) + entries_from(lines, groups, 0) =~= entries_from(
            lines,
            groups,
            0,
        ));
    } else {
        lemma_kept_prefix(c, old_lines, old_groups, lines, scene, revision, k - 1);
        let start = if k == 1 {
            0
        } else {
            c.entries[k - 2].entry.end
        };
        let e = c.entries[k - 1].entry;
        assert(follows(c.entries, k - 1, 0));
        assert(e.start == start);
        assert(cached_entries(c)[k - 1] == e);
        lemma_entry_of(old_lines, old_groups, 0, k - 1);
        assert(e.end <= c.dirty_from);
        assert(old_lines[e.start] == lines[e.start]);
        if e.start > 0 {
            assert(old_lines[e.start - 1] == lines[e.start - 1]);
        }
        assert(e.start < lines.len());
        if is_plain_tool(lines[e.start]) {
            lemma_run_end(old_lines, e.start);
            if e.end == c.dirty_from {
                lemma_end_of_kept(c, lines, revision, k - 1);
            } else {
                let at_end = old_lines[e.end];
                assert(e.end < old_lines.len() <==> e.end < lines.len());
            }
            assert(old_lines[e.end - 1] == lines[e.end - 1]);
            assert forall|i: int| e.start <= i < e.end implies is_plain_tool(
                #[trigger] lines[i],
            ) by {
                assert(old_lines[i] == lines[i]);
            }
            lemma_run_end_same(lines, e.start, e.end);
        }
        assert(entry_at(lines, groups, start) == e);
        assert(entries_from(lines, groups, start) =~= seq![e] + entries_from(
            lines,
            groups,
            e.end,
        ));
        assert(cached_entries(c).take(k) =~= cached_entries(c).take(k - 1).push(e));
        assert(cached_entries(c).take(k) + entries_from(lines, groups, e.end)
            =~= cached_entries(c).take(k - 1) + entries_from(lines, groups, start));
    }
}

/// A kept group that ends at the first dirty line has no call at its end.
proof fn lemma_end_of_kept(c: CacheView, lines: Seq<ItemView>, revision: u64, k: int)
    requires
        cache_wf(c),
        c.revision == Some(revision),
        0 <= k < kept_entries(c, lines, revision),
        c.entries[k].entry.group is Some,
        c.entries[k].entry.end == c.dirty_from,
    ensures
        c.entries[k].entry.end >= lines.len() || !is_plain_tool(lines[c.entries[k].entry.end]),
{
    let n = dirty_entry(c.entries, 0, c.dirty_from);
    lemma_dirty_entry(c.entries, 0, c.dirty_from);
    if k + 1 < n {
        assert(follows(c.entries, k + 1, 0));
        assert(c.entries[k + 1].entry.end <= c.dirty_from);
    }
}

/// A run of plain calls ends where none follows.
proof fn lemma_run_end_same(lines: Seq<ItemView>, i: int, end: int)
    requires
        0 <= i <= end <= lines.len(),
        forall|k: int| i <= k < end ==> is_plain_tool(#[trigger] lines[k]),
        end >= lines.len() || !is_plain_tool(lines[end]),
    ensures
        run_end(lines, i) == end,
    decreases end - i,
{
    if i < end {
        lemma_run_end_same(lines, i + 1, end);
    }
}

} // verus!
