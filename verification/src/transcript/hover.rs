//! What the pointer rests on.

use vstd::prelude::*;
use crate::chars::{group_views, is_whitespace, to_chars, white_space};
use crate::style::{underlined, Line, SpanView};

verus! {

broadcast use group_views;

/// White space and box drawing: the structure of a row, not its content.
pub open spec fn structural(s: Seq<char>) -> bool {
    forall|i: int|
        0 <= i < s.len() ==> white_space(#[trigger] s[i]) || 0x2500 <= s[i] as u32 <= 0x257f
}

/// The span with its content underlined.
pub open spec fn hovered(s: SpanView) -> SpanView {
    if structural(s.content) {
        s
    } else {
        SpanView { style: underlined(s.style), ..s }
    }
}

fn is_structural(s: &str) -> (r: bool)
    ensures
        r == structural(s@),
{
    let v: Vec<char> = to_chars(s);
    let mut i: usize = 0;
    while i < v.len()
        invariant
            i <= v@.len(),
            v@ == s@,
            forall|k: int|
                0 <= k < i ==> white_space(#[trigger] v@[k]) || 0x2500 <= v@[k] as u32 <= 0x257f,
        decreases v@.len() - i,
    {
        let c: char = v[i];
        if !is_whitespace(c) && !(0x2500 <= c as u32 && c as u32 <= 0x257f) {
            assert(!white_space(s@[i as int]));
            return false;
        }
        i += 1;
    }
    true
}

/// Underline what a click on this row would act on.
pub fn underline_content_spans(line: &mut Line)
    ensures
        final(line)@.spans == old(line)@.spans.map_values(|s: SpanView| hovered(s)),
        final(line)@.style == old(line)@.style,
{
    let ghost all = line@.spans;
    let n: usize = line.spans.len();
    let mut i: usize = 0;
    while i < n
        invariant
            i <= n,
            n == line.spans@.len(),
            n == all.len(),
            all == old(line)@.spans,
            line.style == old(line).style,
            forall|k: int| i <= k < n ==> (#[trigger] line.spans@[k])@ == all[k],
            forall|k: int| 0 <= k < i ==> (#[trigger] line.spans@[k])@ == hovered(all[k]),
        decreases n - i,
    {
        let ghost before = line.spans@;
        assert(line.spans@[i as int]@ == all[i as int]);
        if !is_structural(line.spans[i].content.as_str()) {
            let style = line.spans[i].style.underlined();
            line.spans[i].style = style;
        }
        assert(forall|k: int| 0 <= k < n && k != i ==> line.spans@[k] == before[k]);
        i += 1;
    }
    assert(line@.spans =~= all.map_values(|s: SpanView| hovered(s)));
}

} // verus!
