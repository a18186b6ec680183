//! Trimming, searching and splitting plain strings.

use vstd::prelude::*;
use crate::chars::{
    all_white, from_range, group_views, is_whitespace, own, rep, repeat, to_chars, views,
    white_space,
};

verus! {

broadcast use group_views;

/// Past the characters from `i` on that `p` holds of.
pub open spec fn past(s: Seq<char>, i: int, p: spec_fn(char) -> bool) -> int
    decreases s.len() - i,
{
    if 0 <= i < s.len() && p(s[i]) {
        past(s, i + 1, p)
    } else {
        i
    }
}

/// Before the characters up to `n` that `p` holds of.
pub open spec fn before(s: Seq<char>, n: int, p: spec_fn(char) -> bool) -> int
    decreases n,
{
    if 0 < n <= s.len() && p(s[n - 1]) {
        before(s, n - 1, p)
    } else {
        n
    }
}

pub open spec fn is_white() -> spec_fn(char) -> bool {
    |c: char| white_space(c)
}

pub open spec fn is_char(c: char) -> spec_fn(char) -> bool {
    |d: char| d == c
}

/// The text without the leading characters that `p` holds of.
pub open spec fn trimmed_start(s: Seq<char>, p: spec_fn(char) -> bool) -> Seq<char> {
    s.skip(past(s, 0, p))
}

/// The text without the trailing characters that `p` holds of.
pub open spec fn trimmed_end(s: Seq<char>, p: spec_fn(char) -> bool) -> Seq<char> {
    s.take(before(s, s.len() as int, p))
}

/// The text without white space around it.
pub open spec fn trimmed(s: Seq<char>) -> Seq<char> {
    trimmed_end(trimmed_start(s, is_white()), is_white())
}

/// Whether `part` stands in `s` at `i`.
pub open spec fn stands_at(s: Seq<char>, part: Seq<char>, i: int) -> bool {
    0 <= i && i + part.len() <= s.len() && s.subrange(i, i + part.len()) == part
}

pub open spec fn starts(s: Seq<char>, part: Seq<char>) -> bool {
    stands_at(s, part, 0)
}

pub open spec fn ends(s: Seq<char>, part: Seq<char>) -> bool {
    stands_at(s, part, s.len() - part.len())
}

/// The first place from `i` on where `part` stands in `s`, or -1.
pub open spec fn search(s: Seq<char>, part: Seq<char>, i: int) -> int
    decreases s.len() + 1 - i,
{
    if i < 0 || i + part.len() > s.len() {
        -1
    } else if stands_at(s, part, i) {
        i
    } else {
        search(s, part, i + 1)
    }
}

/// The last place up to `i` where `part` stands in `s`, or -1.
pub open spec fn search_back(s: Seq<char>, part: Seq<char>, i: int) -> int
    decreases i + 1,
{
    if i < 0 {
        -1
    } else if stands_at(s, part, i) {
        i
    } else {
        search_back(s, part, i - 1)
    }
}

pub open spec fn holds(s: Seq<char>, part: Seq<char>) -> bool {
    search(s, part, 0) >= 0
}

/// What white space separates in the text from `i` on.
pub open spec fn words_from(s: Seq<char>, i: int) -> Seq<Seq<char>>
    decreases s.len() - i,
    when 0 <= i
    via words_from_decreases
{
    let a = past(s, i, is_white());
    if a >= s.len() {
        Seq::empty()
    } else {
        let b = past(s, a, |c: char| !white_space(c));
        seq![s.subrange(a, b)] + words_from(s, b)
    }
}

#[via_fn]
proof fn words_from_decreases(s: Seq<char>, i: int) {
    if i <= s.len() {
        lemma_past(s, i, is_white());
        let a = past(s, i, is_white());
        if a < s.len() {
            lemma_past(s, a, |c: char| !white_space(c));
        }
    }
}

/// The words of a text.
pub open spec fn words(s: Seq<char>) -> Seq<Seq<char>> {
    words_from(s, 0)
}

/// The text padded with spaces to `n` characters.
pub open spec fn padded(s: Seq<char>, n: nat) -> Seq<char> {
    if s.len() < n {
        s + rep(' ', (n - s.len()) as nat)
    } else {
        s
    }
}

pub proof fn lemma_past(s: Seq<char>, i: int, p: spec_fn(char) -> bool)
    requires
        0 <= i <= s.len(),
    ensures
        i <= past(s, i, p) <= s.len(),
        past(s, i, p) < s.len() ==> !p(s[past(s, i, p)]),
        forall|k: int| i <= k < past(s, i, p) ==> p(#[trigger] s[k]),
    decreases s.len() - i,
{
    if i < s.len() && p(s[i]) {
        lemma_past(s, i + 1, p);
    }
}

pub proof fn lemma_before(s: Seq<char>, n: int, p: spec_fn(char) -> bool)
    requires
        0 <= n <= s.len(),
    ensures
        0 <= before(s, n, p) <= n,
    decreases n,
{
    if 0 < n && p(s[n - 1]) {
        lemma_before(s, n - 1, p);
    }
}

pub proof fn lemma_search(s: Seq<char>, part: Seq<char>, i: int)
    requires
        0 <= i,
    ensures
        search(s, part, i) == -1 || i <= search(s, part, i) && stands_at(
            s,
            part,
            search(s, part, i),
        ),
    decreases s.len() + 1 - i,
{
    if i + part.len() <= s.len() && !stands_at(s, part, i) {
        lemma_search(s, part, i + 1);
    }
}

pub proof fn lemma_search_back(s: Seq<char>, part: Seq<char>, i: int)
    ensures
        search_back(s, part, i) == -1 || 0 <= search_back(s, part, i) <= i && stands_at(
            s,
            part,
            search_back(s, part, i),
        ),
    decreases i + 1,
{
    if i >= 0 && !stands_at(s, part, i) {
        lemma_search_back(s, part, i - 1);
    }
}

fn past_white(v: &Vec<char>, from: usize) -> (r: usize)
    requires
        from <= v@.len(),
    ensures
        r == past(v@, from as int, is_white()),
        from <= r <= v@.len(),
{
    let mut i: usize = from;
    while i < v.len() && is_whitespace(v[i])
        invariant
            from <= i <= v@.len(),
            past(v@, from as int, is_white()) == past(v@, i as int, is_white()),
        decreases v@.len() - i,
    {
        i += 1;
    }
    i
}

fn past_ink(v: &Vec<char>, from: usize) -> (r: usize)
    requires
        from <= v@.len(),
    ensures
        r == past(v@, from as int, |c: char| !white_space(c)),
        from <= r <= v@.len(),
{
    let ghost p = |c: char| !white_space(c);
    let mut i: usize = from;
    while i < v.len() && !is_whitespace(v[i])
        invariant
            from <= i <= v@.len(),
            p == (|c: char| !white_space(c)),
            past(v@, from as int, p) == past(v@, i as int, p),
        decreases v@.len() - i,
    {
        i += 1;
    }
    i
}

pub fn trim_start(s: &str) -> (r: String)
    ensures
        r@ == trimmed_start(s@, is_white()),
{
    let v: Vec<char> = to_chars(s);
    let a: usize = past_white(&v, 0);
    assert(v@.subrange(a as int, v@.len() as int) =~= v@.skip(a as int));
    from_range(&v, a, v.len())
}

pub fn trim_end(s: &str) -> (r: String)
    ensures
        r@ == trimmed_end(s@, is_white()),
{
    let v: Vec<char> = to_chars(s);
    let mut n: usize = v.len();
    while n > 0 && is_whitespace(v[n - 1])
        invariant
            n <= v@.len(),
            before(v@, v@.len() as int, is_white()) == before(v@, n as int, is_white()),
        decreases n,
    {
        n -= 1;
    }
    assert(v@.subrange(0, n as int) =~= v@.take(n as int));
    from_range(&v, 0, n)
}

pub fn trim(s: &str) -> (r: String)
    ensures
        r@ == trimmed(s@),
{
    trim_end(trim_start(s).as_str())
}

/// Without the leading characters `c`.
pub fn trim_start_char(s: &str, c: char) -> (r: String)
    ensures
        r@ == trimmed_start(s@, is_char(c)),
{
    let v: Vec<char> = to_chars(s);
    let mut i: usize = 0;
    while i < v.len() && v[i] == c
        invariant
            i <= v@.len(),
            past(v@, 0, is_char(c)) == past(v@, i as int, is_char(c)),
        decreases v@.len() - i,
    {
        i += 1;
    }
    assert(v@.subrange(i as int, v@.len() as int) =~= v@.skip(i as int));
    from_range(&v, i, v.len())
}

/// Without the trailing characters `c`.
pub fn trim_end_char(s: &str, c: char) -> (r: String)
    ensures
        r@ == trimmed_end(s@, is_char(c)),
{
    let v: Vec<char> = to_chars(s);
    let mut n: usize = v.len();
    while n > 0 && v[n - 1] == c
        invariant
            n <= v@.len(),
            before(v@, v@.len() as int, is_char(c)) == before(v@, n as int, is_char(c)),
        decreases n,
    {
        n -= 1;
    }
    assert(v@.subrange(0, n as int) =~= v@.take(n as int));
    from_range(&v, 0, n)
}

/// Whether `part` stands in `v` at `i`.
pub fn is_at(v: &Vec<char>, part: &Vec<char>, i: usize) -> (r: bool)
    ensures
        r == stands_at(v@, part@, i as int),
{
    if i > v.len() || part.len() > v.len() - i {
        return false;
    }
    let mut k: usize = 0;
    while k < part.len()
        invariant
            k <= part@.len(),
            i + part.len() <= v.len(),
            forall|j: int| 0 <= j < k ==> v@[i + j] == #[trigger] part@[j],
        decreases part@.len() - k,
    {
        if v[i + k] != part[k] {
            assert(v@.subrange(i as int, i + part@.len())[k as int] != part@[k as int]);
            return false;
        }
        k += 1;
    }
    assert(v@.subrange(i as int, i + part@.len()) =~= part@);
    true
}

/// The first place from `from` on where `part` stands.
pub fn find_from(v: &Vec<char>, part: &Vec<char>, from: usize) -> (r: Option<usize>)
    ensures
        match r {
            Some(i) => i == search(v@, part@, from as int) && from <= i && i + part@.len()
                <= v@.len(),
            None => search(v@, part@, from as int) == -1,
        },
{
    let mut i: usize = from;
    while i <= v.len() && part.len() <= v.len() - i
        invariant
            from <= i,
            i <= v@.len() + 1 || i == from,
            search(v@, part@, from as int) == search(v@, part@, i as int),
        decreases v@.len() + 1 - i,
    {
        if is_at(v, part, i) {
            return Some(i);
        }
        if i == v.len() {
            assert(search(v@, part@, i + 1) == -1);
            return None;
        }
        i += 1;
    }
    None
}

pub fn find_str(s: &str, part: &str) -> (r: Option<usize>)
    ensures
        match r {
            Some(i) => i == search(s@, part@, 0) && i + part@.len() <= s@.len(),
            None => search(s@, part@, 0) == -1,
        },
{
    find_from(&to_chars(s), &to_chars(part), 0)
}

pub fn contains(s: &str, part: &str) -> (r: bool)
    ensures
        r == holds(s@, part@),
{
    find_str(s, part).is_some()
}

pub fn starts_with(s: &str, part: &str) -> (r: bool)
    ensures
        r == starts(s@, part@),
{
    is_at(&to_chars(s), &to_chars(part), 0)
}

/// What follows `part` at the start of `s`.
pub fn strip_prefix(s: &str, part: &str) -> (r: Option<String>)
    ensures
        match r {
            Some(rest) => starts(s@, part@) && rest@ == s@.skip(part@.len() as int),
            None => !starts(s@, part@),
        },
{
    let v: Vec<char> = to_chars(s);
    let p: Vec<char> = to_chars(part);
    if is_at(&v, &p, 0) {
        assert(v@.subrange(p@.len() as int, v@.len() as int) =~= v@.skip(p@.len() as int));
        Some(from_range(&v, p.len(), v.len()))
    } else {
        None
    }
}

/// What precedes `part` at the end of `s`.
pub fn strip_suffix(s: &str, part: &str) -> (r: Option<String>)
    ensures
        match r {
            Some(rest) => ends(s@, part@) && rest@ == s@.take(s@.len() - part@.len()),
            None => !ends(s@, part@),
        },
{
    let v: Vec<char> = to_chars(s);
    let p: Vec<char> = to_chars(part);
    if p.len() > v.len() {
        return None;
    }
    let n: usize = v.len() - p.len();
    if is_at(&v, &p, n) {
        assert(v@.subrange(0, n as int) =~= v@.take(n as int));
        Some(from_range(&v, 0, n))
    } else {
        None
    }
}

/// What stands before the first `part` and behind it.
pub fn split_once(s: &str, part: &str) -> (r: Option<(String, String)>)
    ensures
        match r {
            Some((a, b)) => {
                let i = search(s@, part@, 0);
                i >= 0 && a@ == s@.take(i) && b@ == s@.skip(i + part@.len())
            },
            None => search(s@, part@, 0) == -1,
        },
{
    let v: Vec<char> = to_chars(s);
    let p: Vec<char> = to_chars(part);
    match find_from(&v, &p, 0) {
        Some(i) => {
            assert(v@.subrange(0, i as int) =~= v@.take(i as int));
            assert(v@.subrange(i + p@.len(), v@.len() as int) =~= v@.skip(i + p@.len()));
            let n: usize = v.len();
            Some((from_range(&v, 0, i), from_range(&v, i + p.len(), n)))
        },
        None => None,
    }
}

/// The words of a text.
pub fn split_words(s: &str) -> (r: Vec<String>)
    ensures
        views(r@) == words(s@),
{
    let v: Vec<char> = to_chars(s);
    let mut r: Vec<String> = Vec::new();
    let mut i: usize = past_white(&v, 0);
    proof {
        lemma_past(v@, 0, is_white());
        lemma_words_skip(v@, 0);
    }
    assert(views(r@) + words_from(v@, i as int) =~= words_from(v@, 0));
    while i < v.len()
        invariant
            i <= v@.len(),
            v@ == s@,
            i < v@.len() ==> past(v@, i as int, is_white()) == i,
            views(r@) + words_from(v@, i as int) == words_from(v@, 0),
        decreases v@.len() - i,
    {
        let b: usize = past_ink(&v, i);
        proof {
            lemma_past(v@, i as int, |c: char| !white_space(c));
            assert(!white_space(v@[i as int]));
            lemma_words_skip(v@, b as int);
            lemma_past(v@, b as int, is_white());
        }
        let ghost done = views(r@);
        r.push(from_range(&v, i, b));
        let next: usize = past_white(&v, b);
        assert(views(r@) + words_from(v@, next as int) =~= done + words_from(v@, i as int));
        i = next;
    }
    assert(words_from(v@, i as int) =~= Seq::empty());
    assert(views(r@) =~= words(s@));
    r
}

/// Leading white space separates nothing.
proof fn lemma_words_skip(s: Seq<char>, i: int)
    requires
        0 <= i <= s.len(),
    ensures
        words_from(s, past(s, i, is_white())) == words_from(s, i),
        past(s, past(s, i, is_white()), is_white()) == past(s, i, is_white()),
{
    lemma_past(s, i, is_white());
}

/// The text padded with spaces to `n` characters.
pub fn pad(s: &str, n: usize) -> (r: String)
    ensures
        r@ == padded(s@, n as nat),
{
    let len: usize = to_chars(s).len();
    let mut r: String = own(s);
    if len < n {
        r.push_str(repeat(' ', n - len).as_str());
    }
    r
}

proof fn lemma_before_first(s: Seq<char>, n: int, m: int, p: spec_fn(char) -> bool)
    requires
        0 <= m <= n <= s.len(),
        forall|i: int| m <= i < n ==> p(#[trigger] s[i]),
        m > 0 ==> !p(s[m - 1]),
    ensures
        before(s, n, p) == m,
    decreases n,
{
    if n > m {
        assert(p(s[n - 1]));
        lemma_before_first(s, n - 1, m, p);
    }
}

/// Trimming takes the white space around a text, and nothing of the text.
pub proof fn law_trimming_takes_white_space_alone(a: Seq<char>, s: Seq<char>, b: Seq<char>)
    requires
        all_white(a),
        all_white(b),
        s.len() > 0,
        !white_space(s[0]),
        !white_space(s.last()),
    ensures
        trimmed(a + s + b) == s,
{
    let whole = a + s + b;
    let p = is_white();
    let n = a.len() as int;
    lemma_past(whole, 0, p);
    let k = past(whole, 0, p);
    assert(k == n) by {
        assert(whole[n] == s[0]);
        if k < n {
            assert(whole[k] == a[k]);
        }
        if k > n {
            assert(p(whole[n]));
        }
    }
    let rest = whole.skip(n);
    assert(rest =~= s + b);
    assert forall|i: int| s.len() <= i < rest.len() implies p(#[trigger] rest[i]) by {
        assert(rest[i] == b[i - s.len()]);
    }
    assert(rest[s.len() - 1] == s.last());
    lemma_before_first(rest, rest.len() as int, s.len() as int, p);
    assert(rest.take(s.len() as int) =~= s);
}

proof fn lemma_past_run(s: Seq<char>, i: int, m: int, p: spec_fn(char) -> bool)
    requires
        0 <= i <= m <= s.len(),
        forall|k: int| i <= k < m ==> p(#[trigger] s[k]),
        m < s.len() ==> !p(s[m]),
    ensures
        past(s, i, p) == m,
    decreases m - i,
{
    if i < m {
        assert(p(s[i]));
        lemma_past_run(s, i + 1, m, p);
    }
}

/// Whether a text is a word: there is no white space in it.
pub open spec fn is_word(s: Seq<char>) -> bool {
    &&& s.len() > 0
    &&& forall|i: int| 0 <= i < s.len() ==> !white_space(#[trigger] s[i])
}

/// The words of a text are what white space separates, however much of it there is.
pub proof fn law_white_space_separates_words(a: Seq<char>, gap: Seq<char>, b: Seq<char>)
    requires
        is_word(a),
        is_word(b),
        gap.len() > 0,
        all_white(gap),
    ensures
        words(a) == seq![a],
        words(a + gap + b) == seq![a, b],
{
    let white = is_white();
    let dark = |c: char| !white_space(c);
    let n = a.len() as int;
    lemma_past_run(a, 0, 0, white);
    lemma_past_run(a, 0, n, dark);
    lemma_past_run(a, n, n, white);
    assert(a.subrange(0, n) =~= a);
    assert(words_from(a, n) =~= Seq::empty());
    assert(words(a) =~= seq![a]);
    let s = a + gap + b;
    let m = n + gap.len();
    let end = s.len() as int;
    assert forall|k: int| 0 <= k < n implies dark(#[trigger] s[k]) by {
        assert(s[k] == a[k]);
    }
    assert forall|k: int| n <= k < m implies white(#[trigger] s[k]) by {
        assert(s[k] == gap[k - n]);
    }
    assert forall|k: int| m <= k < end implies dark(#[trigger] s[k]) by {
        assert(s[k] == b[k - m]);
    }
    assert(!white(s[0]));
    assert(!dark(s[n])) by {
        assert(white(s[n]));
    }
    assert(!white(s[m])) by {
        assert(dark(s[m]));
    }
    lemma_past_run(s, 0, 0, white);
    lemma_past_run(s, 0, n, dark);
    lemma_past_run(s, n, m, white);
    lemma_past_run(s, m, end, dark);
    lemma_past_run(s, end, end, white);
    assert(s.subrange(0, n) =~= a);
    assert(s.subrange(m, end) =~= b);
    assert(words_from(s, end) =~= Seq::empty());
    assert(words_from(s, n) =~= seq![b]);
    assert(words(s) =~= seq![a, b]);
}

} // verus!
