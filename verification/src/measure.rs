//! What Unicode says of a text: its columns on a terminal and its grapheme
//! clusters. Both are computed by outside crates and known here by name.

use unicode_segmentation::UnicodeSegmentation;
use unicode_width::UnicodeWidthStr;
use vstd::prelude::*;
use crate::chars::{concat, views};

verus! {

/// The columns that `unicode_width` gives a text outside CJK contexts.
pub uninterp spec fn text_width(s: Seq<char>) -> nat;

/// The extended grapheme clusters that `unicode_segmentation` cuts a text into.
pub uninterp spec fn clusters(s: Seq<char>) -> Seq<Seq<char>>;

/// `UnicodeWidthStr::width`: the columns of a text, a function of its
/// characters alone.
#[verifier::external_body]
pub(crate) fn width(s: &str) -> (w: usize)
    ensures
        w == text_width(s@),
{
    UnicodeWidthStr::width(s)
}

/// `UnicodeSegmentation::graphemes`, extended: the clusters are a function of
/// the characters alone, none of them is empty, and together they are the text.
#[verifier::external_body]
pub(crate) fn graphemes(s: &str) -> (r: Vec<String>)
    ensures
        views(r@) == clusters(s@),
        concat(views(r@)) == s@,
        forall|i: int| 0 <= i < r@.len() ==> (#[trigger] r@[i])@.len() > 0,
{
    UnicodeSegmentation::graphemes(s, true).map(str::to_owned).collect()
}

/// The lowercase form that std's Unicode tables give a text.
pub uninterp spec fn lowercase(s: Seq<char>) -> Seq<char>;

/// `str::to_lowercase`: the lowercase form, a function of the characters alone.
#[verifier::external_body]
pub(crate) fn to_lowercase(s: &str) -> (r: String)
    ensures
        r@ == lowercase(s@),
{
    s.to_lowercase()
}

} // verus!
