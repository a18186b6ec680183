//! What the cache shows is what the transcript renders to: a change that is marked
//! renders again what it touched, one that is not has everything rendered again.

use vstd::prelude::*;
use crate::transcript::cache::{
    agree_before, built, cache_wf, cached_entries, kept_entries,
    law_marked_changes_keep_the_entries_right, law_unmarked_change_renders_everything,
    lemma_entry_of, lemma_kept_entries, lemma_rebuilt, lemma_resume_line, marked_dirty, rebuilt,
    refreshed, resume_line, spaced, updated, CacheView, CachedView,
};
use crate::transcript::details::RowView;
use crate::transcript::lines::SceneView;
use crate::transcript::model::ItemView;
use crate::transcript::render::{
    child_rows, empty_memo, entry_rows_of, head_rows, lemma_memo_index, lemma_memo_index_same,
    memo_entry_rows, memo_index, remember, remembered, shows_children,
    visible_calls, MemoView, RememberedView,
};
use crate::transcript::rows::{
    active_count, entries_from, entry_animated, entry_at, entry_fits, failed_count, is_active,
    lemma_run_end, EntryView,
};

verus! {

/// A scene at another time.
pub open spec fn at(scene: SceneView, now: u64, started: u64) -> SceneView {
    SceneView { now, activity_started: started, ..scene }
}

/// Whether an entry is the call of an agent with its timeline below it.
pub open spec fn has_timeline(lines: Seq<ItemView>, e: EntryView) -> bool {
    entry_fits(e, lines) && e.group is None && lines[e.start] is Tool && shows_children(
        lines[e.start]->Tool_0,
    )
}

/// The rows of an entry in a scene, its agent's timeline as it was in the scene
/// `below`.
pub open spec fn rows_at(
    lines: Seq<ItemView>,
    e: EntryView,
    scene: SceneView,
    below: SceneView,
    width: nat,
) -> Seq<RowView> {
    if has_timeline(lines, e) {
        head_rows(lines[e.start]->Tool_0, scene, width, 0, None, 0) + child_rows(
            lines[e.start]->Tool_0,
            below,
            width,
            0,
        )
    } else {
        entry_rows_of(lines, e, scene, width, false)
    }
}

/// Whether these are the rows of entry number `index`, at some time of the clock.
pub open spec fn right_rows(
    rows: Seq<RowView>,
    lines: Seq<ItemView>,
    e: EntryView,
    index: int,
    look: SceneView,
    width: nat,
) -> bool {
    exists|now: u64, started: u64, now_below: u64, started_below: u64|
        rows == spaced(
            #[trigger] rows_at(
                lines,
                e,
                at(look, now, started),
                at(look, now_below, started_below),
                width,
            ),
            index,
            e,
        )
}

/// Whether the timeline that is remembered below an entry is the one that stands
/// there, at some time of the clock.
pub open spec fn right_memo(
    memo: MemoView,
    lines: Seq<ItemView>,
    e: EntryView,
    look: SceneView,
    width: nat,
) -> bool {
    has_timeline(lines, e) && remembered(memo.rows, lines[e.start]->Tool_0.id) is Some ==> exists|
        now: u64,
        started: u64,
    |
        remembered(memo.rows, lines[e.start]->Tool_0.id) == Some(
            #[trigger] child_rows(lines[e.start]->Tool_0, at(look, now, started), width, 0),
        )
}

/// Whether entry number `index` of a cache shows what its lines render to.
pub open spec fn right(
    c: CachedView,
    index: int,
    lines: Seq<ItemView>,
    look: SceneView,
    width: nat,
) -> bool {
    &&& c.animated == entry_animated(lines, c.entry)
    &&& right_rows(c.rows, lines, c.entry, index, look, width)
    &&& right_memo(c.children, lines, c.entry, look, width)
}

/// Whether a cache shows what the lines render to, in the scene `look` at some time
/// of the clock.
pub open spec fn shows(c: CacheView, lines: Seq<ItemView>, look: SceneView, width: nat) -> bool {
    &&& cached_entries(c) == entries_from(lines, look.expanded_groups, 0)
    &&& forall|i: int|
        0 <= i < c.entries.len() ==> right(#[trigger] c.entries[i], i, lines, look, width)
}

/// Whether an entry renders alike in two scenes at every time of the clock.
pub open spec fn alike(
    lines: Seq<ItemView>,
    e: EntryView,
    a: SceneView,
    b: SceneView,
    width: nat,
) -> bool {
    &&& forall|now: u64, started: u64, now_below: u64, started_below: u64|
        #[trigger] rows_at(
            lines,
            e,
            at(a, now, started),
            at(a, now_below, started_below),
            width,
        ) == rows_at(
            lines,
            e,
            at(b, now, started),
            at(b, now_below, started_below),
            width,
        )
    &&& has_timeline(lines, e) ==> forall|now: u64, started: u64|
        #[trigger] child_rows(lines[e.start]->Tool_0, at(a, now, started), width, 0) == child_rows(
            lines[e.start]->Tool_0,
            at(b, now, started),
            width,
            0,
        )
}

proof fn lemma_counts_local(a: Seq<ItemView>, b: Seq<ItemView>, from: int, to: int, open: bool)
    requires
        forall|k: int| from <= k < to ==> a[k] == #[trigger] b[k],
    ensures
        active_count(a, from, to) == active_count(b, from, to),
        failed_count(a, from, to) == failed_count(b, from, to),
        visible_calls(a, from, to, open) == visible_calls(b, from, to, open),
    decreases to - from,
{
    if from < to {
        lemma_counts_local(a, b, from, to - 1, open);
        assert(a[to - 1] == b[to - 1]);
    }
}

/// The rows of an entry depend on its own lines alone.
proof fn lemma_rows_local(
    a: Seq<ItemView>,
    b: Seq<ItemView>,
    e: EntryView,
    scene: SceneView,
    below: SceneView,
    width: nat,
)
    requires
        entry_fits(e, a),
        entry_fits(e, b),
        forall|k: int| e.start <= k < e.end ==> a[k] == #[trigger] b[k],
    ensures
        rows_at(a, e, scene, below, width) == rows_at(b, e, scene, below, width),
        entry_animated(a, e) == entry_animated(b, e),
        has_timeline(a, e) == has_timeline(b, e),
{
    assert(a[e.start] == b[e.start]);
    lemma_counts_local(a, b, e.start, e.end, e.group is Some && e.group->0.expanded);
}

proof fn lemma_remembered(rows: Seq<RememberedView>, id: Seq<char>, kept: Seq<RowView>)
    ensures
        remembered(remember(rows, id, kept), id) == Some(kept),
{
    lemma_memo_index(rows, 0, id);
    let i = memo_index(rows, 0, id);
    lemma_memo_index_same(rows, remember(rows, id, kept), 0, id, i);
}

/// An entry that is rendered afresh is right.
proof fn lemma_built_right(
    lines: Seq<ItemView>,
    scene: SceneView,
    width: nat,
    e: EntryView,
    index: int,
)
    requires
        entry_fits(e, lines),
    ensures
        right(built(lines, scene, width, e, index), index, lines, scene, width),
{
    let c = built(lines, scene, width, e, index);
    let now = scene.now;
    let started = scene.activity_started;
    assert(at(scene, now, started) == scene);
    assert(memo_entry_rows(lines, e, scene, width, empty_memo()).0 == rows_at(
        lines,
        e,
        at(scene, now, started),
        at(scene, now, started),
        width,
    ));
    if has_timeline(lines, e) {
        let t = lines[e.start]->Tool_0;
        let fresh = child_rows(t, scene, width, 0);
        lemma_remembered(Seq::empty(), t.id, fresh);
        assert(child_rows(t, at(scene, now, started), width, 0) == fresh);
    }
}

proof fn lemma_rebuilt_right(
    lines: Seq<ItemView>,
    scene: SceneView,
    width: nat,
    from: int,
    index: int,
)
    requires
        0 <= from <= lines.len(),
    ensures
        ({
            let r = rebuilt(lines, scene, width, from, index);
            forall|j: int|
                0 <= j < r.len() ==> right(#[trigger] r[j], index + j, lines, scene, width)
        }),
    decreases lines.len() - from,
{
    let r = rebuilt(lines, scene, width, from, index);
    if from < lines.len() {
        lemma_run_end(lines, from);
        let e = entry_at(lines, scene.expanded_groups, from);
        lemma_built_right(lines, scene, width, e, index);
        lemma_rebuilt_right(lines, scene, width, e.end, index + 1);
        let rest = rebuilt(lines, scene, width, e.end, index + 1);
        assert forall|j: int| 0 <= j < r.len() implies right(
            #[trigger] r[j],
            index + j,
            lines,
            scene,
            width,
        ) by {
            if j > 0 {
                assert(r[j] == rest[j - 1]);
            }
        }
    }
}

/// An entry that is kept, and rendered again where it moves, is right.
proof fn lemma_refreshed_right(
    c: CachedView,
    index: int,
    old_lines: Seq<ItemView>,
    old_look: SceneView,
    lines: Seq<ItemView>,
    scene: SceneView,
    width: nat,
)
    requires
        right(c, index, old_lines, old_look, width),
        entry_fits(c.entry, old_lines),
        entry_fits(c.entry, lines),
        forall|k: int| c.entry.start <= k < c.entry.end ==> old_lines[k] == #[trigger] lines[k],
        alike(lines, c.entry, old_look, scene, width),
    ensures
        right(refreshed(lines, scene, width, c, index), index, lines, scene, width),
{
    let e = c.entry;
    let r = refreshed(lines, scene, width, c, index);
    assert(old_lines[e.start] == lines[e.start]);
    let (n1, s1, n2, s2) = choose|n1: u64, s1: u64, n2: u64, s2: u64|
        c.rows == spaced(
            #[trigger] rows_at(old_lines, e, at(old_look, n1, s1), at(old_look, n2, s2), width),
            index,
            e,
        );
    lemma_rows_local(old_lines, lines, e, at(old_look, n1, s1), at(old_look, n2, s2), width);
    assert(rows_at(lines, e, at(old_look, n1, s1), at(old_look, n2, s2), width) == rows_at(
        lines,
        e,
        at(scene, n1, s1),
        at(scene, n2, s2),
        width,
    ));
    if has_timeline(lines, e) {
        let t = lines[e.start]->Tool_0;
        let known = remembered(c.children.rows, t.id);
        if known is Some {
            let (n, s) = choose|n: u64, s: u64|
                known == Some(#[trigger] child_rows(t, at(old_look, n, s), width, 0));
            assert(child_rows(t, at(old_look, n, s), width, 0) == child_rows(
                t,
                at(scene, n, s),
                width,
                0,
            ));
            assert(known == Some(child_rows(t, at(scene, n, s), width, 0)));
            if c.animated {
                assert(at(scene, scene.now, scene.activity_started) == scene);
                assert(r.rows == spaced(
                    rows_at(
                        lines,
                        e,
                        at(scene, scene.now, scene.activity_started),
                        at(scene, n, s),
                        width,
                    ),
                    index,
                    e,
                ));
            }
        } else if c.animated {
            let fresh = child_rows(t, scene, width, 0);
            assert(at(scene, scene.now, scene.activity_started) == scene);
            lemma_remembered(c.children.rows, t.id, fresh);
            assert(active_count(lines, e.start, e.start + 1) == active_count(
                lines,
                e.start,
                e.start,
            ) + (if is_active(lines[e.start]) {
                1nat
            } else {
                0
            }));
            assert(is_active(ItemView::Tool(t)));
            assert(r.rows == spaced(
                rows_at(
                    lines,
                    e,
                    at(scene, scene.now, scene.activity_started),
                    at(scene, scene.now, scene.activity_started),
                    width,
                ),
                index,
                e,
            ));
            assert(child_rows(
                t,
                at(scene, scene.now, scene.activity_started),
                width,
                0,
            ) == fresh);
        }
    } else if c.animated {
        assert(at(scene, scene.now, scene.activity_started) == scene);
        assert(r.rows == spaced(
            rows_at(
                lines,
                e,
                at(scene, scene.now, scene.activity_started),
                at(scene, scene.now, scene.activity_started),
                width,
            ),
            index,
            e,
        ));
    }
}

/// A change without a mark, or another width, costs work and no more: the update
/// shows what the lines render to.
pub proof fn law_a_missed_mark_costs_only_work(
    c: CacheView,
    lines: Seq<ItemView>,
    scene: SceneView,
    revision: u64,
    width: u16,
)
    requires
        cache_wf(c),
        c.width != Some(width) || c.revision != Some(revision),
    ensures
        shows(updated(c, lines, scene, revision, width), lines, scene, width as nat),
{
    law_unmarked_change_renders_everything(c, lines, scene, revision, width);
    lemma_rebuilt(lines, scene, width as nat, 0, 0);
    lemma_rebuilt_right(lines, scene, width as nat, 0, 0);
}

/// Where the marks name every change, an update shows what the lines render to. A
/// scene may unfold other groups and hold other pages, as long as no entry before
/// the first mark shows it.
pub proof fn law_marked_changes_keep_the_rows_right(
    c: CacheView,
    old_lines: Seq<ItemView>,
    old_look: SceneView,
    lines: Seq<ItemView>,
    scene: SceneView,
    revision: u64,
    width: u16,
)
    requires
        cache_wf(c),
        c.width == Some(width),
        c.revision == Some(revision),
        shows(c, old_lines, old_look, width as nat),
        agree_before(old_lines, lines, c.dirty_from),
        forall|i: int|
            0 <= i < c.entries.len() && (#[trigger] c.entries[i]).entry.end <= c.dirty_from ==> {
                &&& alike(lines, c.entries[i].entry, old_look, scene, width as nat)
                &&& c.entries[i].entry.group is Some ==> scene.expanded_groups.contains(
                    c.entries[i].entry.group->0.id,
                ) == c.entries[i].entry.group->0.expanded
            },
    ensures
        shows(updated(c, lines, scene, revision, width), lines, scene, width as nat),
{
    law_marked_changes_keep_the_entries_right(
        c,
        old_lines,
        old_look.expanded_groups,
        lines,
        scene,
        revision,
        width,
    );
    let u = updated(c, lines, scene, revision, width);
    let kept = kept_entries(c, lines, revision);
    lemma_kept_entries(c, lines, revision);
    assert forall|i: int| 0 <= i < kept implies entry_fits(
        (#[trigger] c.entries[i]).entry,
        old_lines,
    ) && entry_fits(c.entries[i].entry, lines) && forall|k: int|
        c.entries[i].entry.start <= k < c.entries[i].entry.end ==> old_lines[k] == #[trigger]
        lines[k] by {
        assert(c.entries[i].entry.end <= c.dirty_from);
        assert(cached_entries(c)[i] == c.entries[i].entry);
        lemma_entry_of(old_lines, old_look.expanded_groups, 0, i);
        let e = c.entries[i].entry;
        assert(0 <= e.end - 1 < c.dirty_from && e.end - 1 < old_lines.len());
        assert(old_lines[e.end - 1] == lines[e.end - 1]);
        assert(e.end <= lines.len());
        assert forall|k: int| e.start <= k < e.end implies old_lines[k] == #[trigger] lines[k] by {
            assert(old_lines[k] == lines[k]);
        }
    }
    assert forall|i: int| 0 <= i < kept implies (#[trigger] c.entries[i]).entry.end
        <= lines.len() by {
        assert(entry_fits(c.entries[i].entry, lines));
    }
    lemma_resume_line(c, lines, kept);
    let from = resume_line(c.entries, kept, lines);
    lemma_rebuilt_right(lines, scene, width as nat, from, kept);
    let tail = rebuilt(lines, scene, width as nat, from, kept);
    assert forall|i: int| 0 <= i < u.entries.len() implies right(
        #[trigger] u.entries[i],
        i,
        lines,
        scene,
        width as nat,
    ) by {
        if i < kept {
            assert(right(c.entries[i], i, old_lines, old_look, width as nat));
            assert(c.entries[i].entry.end <= c.dirty_from);
            lemma_refreshed_right(
                c.entries[i],
                i,
                old_lines,
                old_look,
                lines,
                scene,
                width as nat,
            );
        } else {
            assert(u.entries[i] == tail[i - kept]);
        }
    }
}

/// Marks add up: a mark leaves what is shown as it is, never counts as clean what an
/// earlier one did not, and with it the lines before the first mark are still those
/// of the last update.
pub proof fn law_marks_add_up(
    c: CacheView,
    base: Seq<ItemView>,
    before: Seq<ItemView>,
    after: Seq<ItemView>,
    look: SceneView,
    width: nat,
    from: nat,
    revision: u64,
)
    requires
        shows(c, base, look, width),
        agree_before(base, before, c.dirty_from),
        agree_before(before, after, from),
    ensures
        ({
            let m = marked_dirty(c, from, revision);
            &&& shows(m, base, look, width)
            &&& m.dirty_from <= from
            &&& m.dirty_from <= c.dirty_from
            &&& agree_before(base, after, m.dirty_from)
        }),
{
    let m = marked_dirty(c, from, revision);
    assert(cached_entries(m) == cached_entries(c));
    assert forall|i: int| 0 <= i < m.dirty_from && i < base.len() implies #[trigger] base[i]
        == after[i] by {
        assert(base[i] == before[i]);
    }
}

} // verus!
