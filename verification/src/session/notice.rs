//! The envelopes in which background work writes its reports into a transcript.

use vstd::prelude::*;
use crate::chars::{cat2, cat3, from_range, own, to_chars};
use crate::words::{
    ends, find_from, is_at, search, search_back, split_once, stands_at, starts, strip_prefix,
    strip_suffix,
};

verus! {

/// A report's first line as a row shows it, and a detail that was moved out of
/// it.
pub struct Headline {
    pub first: String,
    pub detail: Option<String>,
}

pub struct HeadlineView {
    pub first: Seq<char>,
    pub detail: Option<Seq<char>>,
}

impl View for Headline {
    type V = HeadlineView;

    open spec fn view(&self) -> HeadlineView {
        HeadlineView {
            first: self.first@,
            detail: match self.detail {
                Some(detail) => Some(detail@),
                None => None,
            },
        }
    }
}

/// A first line as it was written.
pub open spec fn plain_headline(first: Seq<char>) -> HeadlineView {
    HeadlineView { first, detail: None }
}

impl Headline {
    pub fn plain(first: &str) -> (r: Headline)
        ensures
            r@ == plain_headline(first@),
    {
        Headline { first: own(first), detail: None }
    }
}

/// The earlier of two places, where -1 is none.
pub open spec fn earlier(a: int, b: int) -> int {
    if a < 0 {
        b
    } else if b < 0 || a <= b {
        a
    } else {
        b
    }
}

/// The first closing quote that one of a task's outcomes follows, or -1.
pub open spec fn outcome_at(s: Seq<char>) -> int {
    earlier(
        search(s, "\" completed"@, 0),
        earlier(
            search(s, "\" failed:"@, 0),
            earlier(
                search(s, "\" was cancelled"@, 0),
                earlier(
                    search(s, "\" was aborted"@, 0),
                    earlier(
                        search(s, "\" stalled:"@, 0),
                        search(s, "\" ended abnormally"@, 0),
                    ),
                ),
            ),
        ),
    )
}

/// An outcome without the id in it, and the id.
pub open spec fn without_task_id(outcome: Seq<char>) -> (Seq<char>, Option<Seq<char>>) {
    let mark = " (task_id: "@;
    let open = search(outcome, mark, 0);
    if open < 0 {
        (outcome, None)
    } else {
        let after = outcome.skip(open + mark.len());
        let close = search(after, ")"@, 0);
        if close < 0 {
            (outcome, None)
        } else {
            (outcome.take(open) + after.skip(close + 1), Some(after.take(close)))
        }
    }
}

/// What finished and how, in the words of the report, without the wrapper and
/// with the id behind it. Anything else is shown as it was written.
pub open spec fn task_headline(first: Seq<char>) -> HeadlineView {
    let nested = starts(first, "Nested task \""@);
    if !nested && !starts(first, "Task \""@) {
        plain_headline(first)
    } else {
        let rest = if nested {
            first.skip("Nested task \""@.len() as int)
        } else {
            first.skip("Task \""@.len() as int)
        };
        let split = outcome_at(rest);
        if split < 0 {
            plain_headline(first)
        } else {
            let outcome = without_task_id(rest.skip(split + 2));
            HeadlineView {
                first: (if nested {
                    "nested: "@
                } else {
                    ""@
                }) + rest.take(split) + " "@ + outcome.0,
                detail: match outcome.1 {
                    Some(id) => Some("task_id: "@ + id),
                    None => None,
                },
            }
        }
    }
}

/// What a background job reported: its description first, its id behind it.
pub open spec fn job_headline(first: Seq<char>) -> HeadlineView {
    if !starts(first, "Background job "@) {
        plain_headline(first)
    } else {
        let rest = first.skip("Background job "@.len() as int);
        let open = search(rest, " (\""@, 0);
        if open < 0 {
            plain_headline(rest)
        } else {
            let tail = rest.skip(open + 3);
            let split = search_back(tail, "\") "@, tail.len() as int);
            if split < 0 {
                plain_headline(rest)
            } else {
                HeadlineView {
                    first: tail.take(split) + " "@ + tail.skip(split + 3),
                    detail: Some("job: "@ + rest.take(open)),
                }
            }
        }
    }
}

/// What is inside an envelope, if the text is one.
pub open spec fn unwrapped(text: Seq<char>, opening: Seq<char>, closing: Seq<char>) -> Option<
    Seq<char>,
> {
    if starts(text, opening) && ends(text.skip(opening.len() as int), closing) {
        let rest = text.skip(opening.len() as int);
        Some(rest.take(rest.len() - closing.len()))
    } else {
        None
    }
}

/// The first line of a report and what follows it.
pub open spec fn report_parts(inner: Seq<char>) -> (Seq<char>, Seq<char>) {
    let end = search(inner, "\n"@, 0);
    if end < 0 {
        (inner, Seq::empty())
    } else {
        (inner.take(end), inner.skip(end + 1))
    }
}

/// The body of a report out of its result tags.
pub open spec fn report_body(body: Seq<char>) -> Seq<char> {
    match unwrapped(body, "<result>\n"@, "\n</result>"@) {
        Some(inner) => inner,
        None => body,
    }
}

/// A headline with its body and its detail below it.
pub open spec fn displayed(headline: HeadlineView, body: Seq<char>) -> Seq<char> {
    let top = if body.len() > 0 {
        headline.first + "\n"@ + body
    } else {
        headline.first
    };
    match headline.detail {
        Some(detail) => top + "\n"@ + detail,
        None => top,
    }
}

/// A task's report as its row shows it.
pub open spec fn task_notice(text: Seq<char>) -> Option<Seq<char>> {
    match unwrapped(text, "<task-notification>\n"@, "\n</task-notification>"@) {
        Some(inner) => Some(
            displayed(task_headline(report_parts(inner).0), report_body(report_parts(inner).1)),
        ),
        None => None,
    }
}

/// A job's report as its row shows it.
pub open spec fn job_notice(text: Seq<char>) -> Option<Seq<char>> {
    match unwrapped(text, "<tool-notification>\n"@, "\n</tool-notification>"@) {
        Some(inner) => Some(
            displayed(job_headline(report_parts(inner).0), report_body(report_parts(inner).1)),
        ),
        None => None,
    }
}

/// Whether a user's message was written by the delivery of a report, and typed
/// by nobody.
pub open spec fn arrival(text: Seq<char>) -> bool {
    task_notice(text) is Some || job_notice(text) is Some
}

/// Where `part` first stands, or -1.
fn place(v: &Vec<char>, part: &str) -> (r: Option<usize>)
    ensures
        match r {
            Some(i) => i == search(v@, part@, 0) && i + part@.len() <= v@.len(),
            None => search(v@, part@, 0) == -1,
        },
{
    find_from(v, &to_chars(part), 0)
}

pub open spec fn place_view(p: Option<usize>) -> int {
    match p {
        Some(i) => i as int,
        None => -1,
    }
}

fn first_of(a: Option<usize>, b: Option<usize>) -> (r: Option<usize>)
    ensures
        place_view(r) == earlier(place_view(a), place_view(b)),
        r == a || r == b,
{
    match a {
        None => b,
        Some(i) => match b {
            Some(j) => if i <= j {
                a
            } else {
                b
            },
            None => a,
        },
    }
}

fn outcome_place(v: &Vec<char>) -> (r: Option<usize>)
    ensures
        place_view(r) == outcome_at(v@),
        r matches Some(i) ==> i + 2 <= v@.len(),
{
    proof {
        reveal_strlit("\" completed");
        reveal_strlit("\" failed:");
        reveal_strlit("\" was cancelled");
        reveal_strlit("\" was aborted");
        reveal_strlit("\" stalled:");
        reveal_strlit("\" ended abnormally");
    }
    let a: Option<usize> = place(v, "\" completed");
    let b: Option<usize> = place(v, "\" failed:");
    let c: Option<usize> = place(v, "\" was cancelled");
    let d: Option<usize> = place(v, "\" was aborted");
    let e: Option<usize> = place(v, "\" stalled:");
    let f: Option<usize> = place(v, "\" ended abnormally");
    first_of(a, first_of(b, first_of(c, first_of(d, first_of(e, f)))))
}

fn split_task_id(outcome: &str) -> (r: (String, Option<String>))
    ensures
        ({
            let parts = without_task_id(outcome@);
            r.0@ == parts.0 && match r.1 {
                Some(id) => parts.1 == Some(id@),
                None => parts.1 is None,
            }
        }),
{
    proof {
        reveal_strlit(")");
    }
    match split_once(outcome, " (task_id: ") {
        Some((front, after)) => match split_once(after.as_str(), ")") {
            Some((id, rest)) => (cat2(front.as_str(), rest.as_str()), Some(id)),
            None => (own(outcome), None),
        },
        None => (own(outcome), None),
    }
}

pub fn normalize_task_notification(first: &str) -> (r: Headline)
    ensures
        r@ == task_headline(first@),
{
    let (nested, rest) = match strip_prefix(first, "Nested task \"") {
        Some(rest) => (true, rest),
        None => match strip_prefix(first, "Task \"") {
            Some(rest) => (false, rest),
            None => return Headline::plain(first),
        },
    };
    let v: Vec<char> = to_chars(rest.as_str());
    let split: usize = match outcome_place(&v) {
        Some(split) => split,
        None => return Headline::plain(first),
    };
    assert(v@.subrange(0, split as int) =~= v@.take(split as int));
    assert(v@.subrange(split + 2, v@.len() as int) =~= v@.skip(split + 2));
    let n: usize = v.len();
    let (outcome, id) = split_task_id(from_range(&v, split + 2, n).as_str());
    let mut shown: String = cat2(
        if nested {
            "nested: "
        } else {
            ""
        },
        from_range(&v, 0, split).as_str(),
    );
    shown.push_str(" ");
    shown.push_str(outcome.as_str());
    Headline {
        first: shown,
        detail: match id {
            Some(id) => Some(cat2("task_id: ", id.as_str())),
            None => None,
        },
    }
}

/// The last place where `part` stands.
fn last_place(v: &Vec<char>, part: &Vec<char>) -> (r: Option<usize>)
    ensures
        match r {
            Some(i) => i == search_back(v@, part@, v@.len() as int) && i + part@.len() <= v@.len(),
            None => search_back(v@, part@, v@.len() as int) == -1,
        },
{
    let mut i: usize = v.len();
    loop
        invariant
            i <= v@.len(),
            search_back(v@, part@, v@.len() as int) == search_back(v@, part@, i as int),
        decreases i,
    {
        if is_at(v, part, i) {
            return Some(i);
        }
        if i == 0 {
            assert(search_back(v@, part@, -1) == -1);
            return None;
        }
        i -= 1;
    }
}

pub fn normalize_tool_notification(first: &str) -> (r: Headline)
    ensures
        r@ == job_headline(first@),
{
    proof {
        reveal_strlit(" (\"");
        reveal_strlit("\") ");
    }
    let rest: String = match strip_prefix(first, "Background job ") {
        Some(rest) => rest,
        None => return Headline::plain(first),
    };
    let (id, tail) = match split_once(rest.as_str(), " (\"") {
        Some(parts) => parts,
        None => return Headline::plain(rest.as_str()),
    };
    let v: Vec<char> = to_chars(tail.as_str());
    let split: usize = match last_place(&v, &to_chars("\") ")) {
        Some(split) => split,
        None => return Headline::plain(rest.as_str()),
    };
    assert(v@.subrange(0, split as int) =~= v@.take(split as int));
    assert(v@.subrange(split + 3, v@.len() as int) =~= v@.skip(split + 3));
    let n: usize = v.len();
    Headline {
        first: cat3(
            from_range(&v, 0, split).as_str(),
            " ",
            from_range(&v, split + 3, n).as_str(),
        ),
        detail: Some(cat2("job: ", id.as_str())),
    }
}

fn unwrap(text: &str, opening: &str, closing: &str) -> (r: Option<String>)
    ensures
        match r {
            Some(inner) => unwrapped(text@, opening@, closing@) == Some(inner@),
            None => unwrapped(text@, opening@, closing@) is None,
        },
{
    match strip_prefix(text, opening) {
        Some(rest) => strip_suffix(rest.as_str(), closing),
        None => None,
    }
}

fn split_report(inner: &str) -> (r: (String, String))
    ensures
        (r.0@, r.1@) == report_parts(inner@),
{
    proof {
        reveal_strlit("\n");
    }
    match split_once(inner, "\n") {
        Some(parts) => parts,
        None => (own(inner), String::new()),
    }
}

fn body_of(body: String) -> (r: String)
    ensures
        r@ == report_body(body@),
{
    match unwrap(body.as_str(), "<result>\n", "\n</result>") {
        Some(inner) => inner,
        None => body,
    }
}

fn display(headline: Headline, body: &str) -> (r: String)
    ensures
        r@ == displayed(headline@, body@),
{
    let mut r: String = headline.first;
    if !body.is_empty() {
        r.push_str("\n");
        r.push_str(body);
    }
    if let Some(detail) = headline.detail {
        r.push_str("\n");
        r.push_str(detail.as_str());
    }
    r
}

pub fn task_notification_display(text: &str) -> (r: Option<String>)
    ensures
        match r {
            Some(shown) => task_notice(text@) == Some(shown@),
            None => task_notice(text@) is None,
        },
{
    match unwrap(text, "<task-notification>\n", "\n</task-notification>") {
        Some(inner) => {
            let (first, body) = split_report(inner.as_str());
            let shown: String = body_of(body);
            Some(display(normalize_task_notification(first.as_str()), shown.as_str()))
        },
        None => None,
    }
}

pub fn tool_notification_display(text: &str) -> (r: Option<String>)
    ensures
        match r {
            Some(shown) => job_notice(text@) == Some(shown@),
            None => job_notice(text@) is None,
        },
{
    match unwrap(text, "<tool-notification>\n", "\n</tool-notification>") {
        Some(inner) => {
            let (first, body) = split_report(inner.as_str());
            let shown: String = body_of(body);
            Some(display(normalize_tool_notification(first.as_str()), shown.as_str()))
        },
        None => None,
    }
}

/// Whether a message was written by the delivery of a report.
pub fn is_an_arrival(text: &str) -> (r: bool)
    ensures
        r == arrival(text@),
{
    task_notification_display(text).is_some() || tool_notification_display(text).is_some()
}

proof fn lemma_nowhere(s: Seq<char>, part: Seq<char>, i: int)
    requires
        0 <= i,
        forall|k: int| i <= k ==> !(#[trigger] stands_at(s, part, k)),
    ensures
        search(s, part, i) == -1,
    decreases s.len() + 1 - i,
{
    if i + part.len() <= s.len() {
        assert(!stands_at(s, part, i));
        lemma_nowhere(s, part, i + 1);
    }
}

proof fn lemma_first_at(s: Seq<char>, part: Seq<char>, i: int, at: int)
    requires
        0 <= i <= at,
        stands_at(s, part, at),
        forall|k: int| i <= k < at ==> !(#[trigger] stands_at(s, part, k)),
    ensures
        search(s, part, i) == at,
    decreases at - i,
{
    if i < at {
        assert(!stands_at(s, part, i));
        lemma_first_at(s, part, i + 1, at);
    }
}

/// A phrase that begins with the quote is nowhere in a text whose only quote goes on
/// otherwise.
proof fn lemma_other_outcome(s: Seq<char>, at: int, phrase: Seq<char>, d: int)
    requires
        0 <= at,
        at + d < s.len(),
        0 < d < phrase.len(),
        phrase[0] == '"',
        phrase[d] != s[at + d],
        forall|k: int| 0 <= k < s.len() && k != at ==> s[k] != '"',
    ensures
        search(s, phrase, 0) == -1,
{
    assert forall|k: int| 0 <= k implies !(#[trigger] stands_at(s, phrase, k)) by {
        if stands_at(s, phrase, k) {
            assert(s.subrange(k, k + phrase.len())[0] == s[k]);
            assert(s.subrange(k, k + phrase.len())[d] == s[k + d]);
        }
    }
    lemma_nowhere(s, phrase, 0);
}

/// The report of a task that was completed is headed by what the task was and that it
/// was completed, without the wrapper.
pub proof fn law_a_completed_task_is_named(d: Seq<char>)
    requires
        forall|i: int| 0 <= i < d.len() ==> d[i] != '"',
    ensures
        task_headline("Task \""@ + d + "\" completed"@) == plain_headline(d + " completed"@),
{
    reveal_strlit("Task \"");
    reveal_strlit("Nested task \"");
    reveal_strlit("\" completed");
    reveal_strlit("\" failed:");
    reveal_strlit("\" was cancelled");
    reveal_strlit("\" was aborted");
    reveal_strlit("\" stalled:");
    reveal_strlit("\" ended abnormally");
    reveal_strlit(" (task_id: ");
    reveal_strlit(" completed");
    reveal_strlit(" ");
    reveal_strlit("");
    let first = "Task \""@ + d + "\" completed"@;
    let n = d.len() as int;
    if starts(first, "Nested task \""@) {
        assert(first.subrange(0, "Nested task \""@.len() as int)[0] == first[0]);
    }
    assert(first.subrange(0, 6) =~= "Task \""@);
    let rest = first.skip(6);
    assert(rest =~= d + "\" completed"@);
    assert(rest[n] == '"');
    assert forall|k: int| 0 <= k < rest.len() && k != n implies rest[k] != '"' by {
        if k < n {
            assert(rest[k] == d[k]);
        } else {
            assert(rest[k] == "\" completed"@[k - n]);
        }
    }
    let phrase = "\" completed"@;
    assert(rest.subrange(n, n + phrase.len()) =~= phrase);
    assert forall|k: int| 0 <= k < n implies !(#[trigger] stands_at(rest, phrase, k)) by {
        if stands_at(rest, phrase, k) {
            assert(rest.subrange(k, k + phrase.len())[0] == rest[k]);
        }
    }
    lemma_first_at(rest, phrase, 0, n);
    assert(rest[n + 2] == 'c');
    lemma_other_outcome(rest, n, "\" failed:"@, 2);
    lemma_other_outcome(rest, n, "\" was cancelled"@, 2);
    lemma_other_outcome(rest, n, "\" was aborted"@, 2);
    lemma_other_outcome(rest, n, "\" stalled:"@, 2);
    lemma_other_outcome(rest, n, "\" ended abnormally"@, 2);
    assert(outcome_at(rest) == n);
    let outcome = rest.skip(n + 2);
    assert(outcome =~= "\" completed"@.skip(2));
    let mark = " (task_id: "@;
    assert forall|k: int| 0 <= k implies !(#[trigger] stands_at(outcome, mark, k)) by {
        if stands_at(outcome, mark, k) {
            assert(outcome.subrange(k, k + mark.len())[0] == outcome[k]);
            assert(outcome[k] != ' ');
        }
    }
    lemma_nowhere(outcome, mark, 0);
    assert(rest.take(n) =~= d);
    assert(""@ + d + " "@ + outcome =~= d + " completed"@);
}

/// A message in the envelope of a report is shown as what the report says: its headline
/// and below it its body, without the envelope and the tags of the result.
pub proof fn law_a_report_is_shown_without_its_envelope(first: Seq<char>, body: Seq<char>)
    requires
        forall|i: int| 0 <= i < first.len() ==> first[i] != '\n',
        body.len() > 0,
        task_headline(first).detail is None,
    ensures
        task_notice(
            "<task-notification>\n"@ + first + "\n<result>\n"@ + body
                + "\n</result>\n</task-notification>"@,
        ) == Some(task_headline(first).first + "\n"@ + body),
{
    reveal_strlit("<task-notification>\n");
    reveal_strlit("\n</task-notification>");
    reveal_strlit("\n<result>\n");
    reveal_strlit("<result>\n");
    reveal_strlit("\n</result>");
    reveal_strlit("\n</result>\n</task-notification>");
    reveal_strlit("\n");
    let open = "<task-notification>\n"@;
    let close = "\n</task-notification>"@;
    let text = open + first + "\n<result>\n"@ + body + "\n</result>\n</task-notification>"@;
    let inner = first + "\n<result>\n"@ + body + "\n</result>"@;
    assert(text.subrange(0, open.len() as int) =~= open);
    let rest = text.skip(open.len() as int);
    assert(rest =~= inner + close);
    assert(rest.subrange(rest.len() - close.len(), rest.len() as int) =~= close);
    assert(rest.take(rest.len() - close.len()) =~= inner);
    let n = first.len() as int;
    let feed = "\n"@;
    assert(inner.subrange(n, n + 1) =~= feed);
    assert forall|k: int| 0 <= k < n implies !(#[trigger] stands_at(inner, feed, k)) by {
        if stands_at(inner, feed, k) {
            assert(inner.subrange(k, k + 1)[0] == inner[k]);
            assert(inner[k] == first[k]);
        }
    }
    lemma_first_at(inner, feed, 0, n);
    assert(inner.take(n) =~= first);
    let tagged = inner.skip(n + 1);
    assert(tagged =~= "<result>\n"@ + body + "\n</result>"@);
    let begin = "<result>\n"@;
    let end = "\n</result>"@;
    assert(tagged.subrange(0, begin.len() as int) =~= begin);
    let after = tagged.skip(begin.len() as int);
    assert(after =~= body + end);
    assert(after.subrange(after.len() - end.len(), after.len() as int) =~= end);
    assert(after.take(after.len() - end.len()) =~= body);
}

} // verus!
