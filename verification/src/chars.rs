//! Characters and plain strings: the vocabulary that the rest of the crate
//! states its contracts in. A string is seen as its sequence of characters.

use vstd::prelude::*;

verus! {

/// `String::push`: the character goes to the end of the string.
pub assume_specification[ String::push ](s: &mut String, c: char)
    ensures
        final(s)@ == old(s)@.push(c),
;

/// `String::push_str`: the slice goes to the end of the string.
pub assume_specification[ String::push_str ](s: &mut String, t: &str)
    ensures
        final(s)@ == old(s)@ + t@,
;

/// The views of the items of a sequence.
pub open spec fn views<T: View>(v: Seq<T>) -> Seq<T::V> {
    v.map_values(|x: T| x@)
}

pub broadcast proof fn lemma_views_push<T: View>(v: Seq<T>, x: T)
    ensures
        #[trigger] views(v.push(x)) == views(v).push(x@),
{
    assert(views(v.push(x)) =~= views(v).push(x@));
}

pub broadcast proof fn lemma_views_add<T: View>(a: Seq<T>, b: Seq<T>)
    ensures
        #[trigger] views(a + b) == views(a) + views(b),
{
    assert(views(a + b) =~= views(a) + views(b));
}

pub broadcast proof fn lemma_views_empty<T: View>()
    ensures
        #[trigger] views(Seq::<T>::empty()) == Seq::<T::V>::empty(),
{
    assert(views(Seq::<T>::empty()) =~= Seq::<T::V>::empty());
}

pub broadcast proof fn lemma_views_subrange<T: View>(v: Seq<T>, i: int, j: int)
    requires
        0 <= i <= j <= v.len(),
    ensures
        #[trigger] views(v.subrange(i, j)) == views(v).subrange(i, j),
{
    assert(views(v.subrange(i, j)) =~= views(v).subrange(i, j));
}

pub broadcast proof fn lemma_views_update<T: View>(v: Seq<T>, i: int, x: T)
    requires
        0 <= i < v.len(),
    ensures
        #[trigger] views(v.update(i, x)) == views(v).update(i, x@),
{
    assert(views(v.update(i, x)) =~= views(v).update(i, x@));
}

pub broadcast group group_views {
    lemma_views_push,
    lemma_views_add,
    lemma_views_empty,
    lemma_views_subrange,
    lemma_views_update,
}

/// The characters with the Unicode property `White_Space`.
pub open spec fn white_space(c: char) -> bool {
    let n = c as u32;
    ||| 0x09 <= n <= 0x0d
    ||| n == 0x20
    ||| n == 0x85
    ||| n == 0xa0
    ||| n == 0x1680
    ||| 0x2000 <= n <= 0x200a
    ||| n == 0x2028
    ||| n == 0x2029
    ||| n == 0x202f
    ||| n == 0x205f
    ||| n == 0x3000
}

/// The characters of the Unicode general category `Cc`.
pub open spec fn control(c: char) -> bool {
    let n = c as u32;
    n <= 0x1f || 0x7f <= n <= 0x9f
}

/// Every character of `s` is white space.
pub open spec fn all_white(s: Seq<char>) -> bool {
    forall|i: int| 0 <= i < s.len() ==> white_space(#[trigger] s[i])
}

/// The bytes that `c` takes in UTF-8.
pub open spec fn char_bytes(c: char) -> nat {
    let n = c as u32;
    if n < 0x80 {
        1
    } else if n < 0x800 {
        2
    } else if n < 0x10000 {
        3
    } else {
        4
    }
}

/// The bytes that `s` takes in UTF-8.
pub open spec fn byte_len(s: Seq<char>) -> nat
    decreases s.len(),
{
    if s.len() == 0 {
        0
    } else {
        byte_len(s.drop_last()) + char_bytes(s.last())
    }
}

/// The first position at or after `from` that holds `c`, or the length.
pub open spec fn find_from(s: Seq<char>, c: char, from: int) -> int
    decreases s.len() - from,
{
    if from < 0 || from >= s.len() {
        s.len() as int
    } else if s[from] == c {
        from
    } else {
        find_from(s, c, from + 1)
    }
}

/// The lines of the text from position `start` on. A line ends at a line feed,
/// or at a carriage return and a line feed; the last ending is optional.
pub open spec fn lines_from(s: Seq<char>, start: int) -> Seq<Seq<char>>
    decreases s.len() - start,
    when 0 <= start
    via lines_from_decreases
{
    if start >= s.len() {
        Seq::empty()
    } else {
        let end = find_from(s, '\n', start);
        if end >= s.len() {
            seq![s.subrange(start, s.len() as int)]
        } else {
            let stop = if end > start && s[end - 1] == '\r' {
                end - 1
            } else {
                end
            };
            seq![s.subrange(start, stop)] + lines_from(s, end + 1)
        }
    }
}

#[via_fn]
proof fn lines_from_decreases(s: Seq<char>, start: int) {
    lemma_find_from(s, '\n', start);
}

/// The lines of a text.
pub open spec fn lines(s: Seq<char>) -> Seq<Seq<char>> {
    lines_from(s, 0)
}

/// Where `find_from` stops: in range, on the character, and on the first one.
pub proof fn lemma_find_from(s: Seq<char>, c: char, from: int)
    requires
        0 <= from,
    ensures
        from <= s.len() ==> from <= find_from(s, c, from) <= s.len(),
        find_from(s, c, from) < s.len() ==> s[find_from(s, c, from)] == c,
        forall|i: int| from <= i < find_from(s, c, from) && i < s.len() ==> s[i] != c,
    decreases s.len() - from,
{
    if from < s.len() && s[from] != c {
        lemma_find_from(s, c, from + 1);
    }
}

proof fn lemma_find_behind(front: Seq<char>, s: Seq<char>, c: char, from: int)
    requires
        0 <= from,
    ensures
        find_from(front + s, c, front.len() + from) == front.len() + find_from(s, c, from),
    decreases s.len() - from,
{
    if from < s.len() && s[from] != c {
        lemma_find_behind(front, s, c, from + 1);
    }
}

proof fn lemma_lines_behind(front: Seq<char>, s: Seq<char>, start: int)
    requires
        0 <= start,
    ensures
        lines_from(front + s, front.len() + start) == lines_from(s, start),
    decreases s.len() - start,
{
    let whole = front + s;
    if start < s.len() {
        lemma_find_behind(front, s, '\n', start);
        lemma_find_from(s, '\n', start);
        let end = find_from(s, '\n', start);
        if end >= s.len() {
            assert(whole.subrange(front.len() + start, whole.len() as int) =~= s.subrange(
                start,
                s.len() as int,
            ));
        } else {
            lemma_lines_behind(front, s, end + 1);
            let stop = if end > start && s[end - 1] == '\r' {
                end - 1
            } else {
                end
            };
            assert(whole.subrange(front.len() + start, front.len() + stop) =~= s.subrange(
                start,
                stop,
            ));
        }
    }
}

proof fn lemma_first_feed(s: Seq<char>, from: int, at: int)
    requires
        0 <= from <= at < s.len(),
        s[at] == '\n',
        forall|i: int| from <= i < at ==> s[i] != '\n',
    ensures
        find_from(s, '\n', from) == at,
    decreases at - from,
{
    if from < at {
        lemma_first_feed(s, from + 1, at);
    }
}

/// A line ends at its line feed, with or without a carriage return before it, and
/// what follows is lines of its own. A text without a line feed is one line.
pub proof fn law_a_line_ends_at_its_line_feed(a: Seq<char>, rest: Seq<char>)
    requires
        forall|i: int| 0 <= i < a.len() ==> a[i] != '\n' && a[i] != '\r',
    ensures
        lines(a + seq!['\n'] + rest) == seq![a] + lines(rest),
        lines(a + seq!['\r', '\n'] + rest) == seq![a] + lines(rest),
        a.len() > 0 ==> lines(a) == seq![a],
        a.len() == 0 ==> lines(a).len() == 0,
{
    let fed = a + seq!['\n'];
    let returned = a + seq!['\r', '\n'];
    lemma_first_feed(fed + rest, 0, a.len() as int);
    lemma_first_feed(returned + rest, 0, a.len() as int + 1);
    lemma_lines_behind(fed, rest, 0);
    lemma_lines_behind(returned, rest, 0);
    assert((fed + rest).subrange(0, a.len() as int) =~= a);
    assert((returned + rest).subrange(0, a.len() as int) =~= a);
    if a.len() > 0 {
        lemma_find_from(a, '\n', 0);
        assert(a.subrange(0, a.len() as int) =~= a);
    }
}

/// The parts joined with `sep` between them.
pub open spec fn join(parts: Seq<Seq<char>>, sep: Seq<char>) -> Seq<char>
    decreases parts.len(),
{
    if parts.len() == 0 {
        Seq::empty()
    } else if parts.len() == 1 {
        parts[0]
    } else {
        join(parts.drop_last(), sep) + sep + parts.last()
    }
}

/// The parts one after the other.
pub open spec fn concat(parts: Seq<Seq<char>>) -> Seq<char>
    decreases parts.len(),
{
    if parts.len() == 0 {
        Seq::empty()
    } else {
        concat(parts.drop_last()) + parts.last()
    }
}

/// The decimal digit of `n`, for `n` below ten.
pub open spec fn digit(n: nat) -> char {
    (('0' as u32) + n) as char
}

/// `n` in decimal.
pub open spec fn dec(n: nat) -> Seq<char>
    decreases n,
{
    if n < 10 {
        seq![digit(n)]
    } else {
        dec(n / 10).push(digit(n % 10))
    }
}

/// `c` repeated `n` times.
pub open spec fn rep(c: char, n: nat) -> Seq<char> {
    Seq::new(n, |i: int| c)
}

pub fn is_whitespace(c: char) -> (r: bool)
    ensures
        r == white_space(c),
{
    let n: u32 = c as u32;
    (0x09 <= n && n <= 0x0d) || n == 0x20 || n == 0x85 || n == 0xa0 || n == 0x1680 || (0x2000 <= n
        && n <= 0x200a) || n == 0x2028 || n == 0x2029 || n == 0x202f || n == 0x205f || n == 0x3000
}

pub fn is_control(c: char) -> (r: bool)
    ensures
        r == control(c),
{
    let n: u32 = c as u32;
    n <= 0x1f || (0x7f <= n && n <= 0x9f)
}

/// The characters of a string.
pub fn to_chars(s: &str) -> (v: Vec<char>)
    ensures
        v@ == s@,
{
    let mut v: Vec<char> = Vec::new();
    for c in it: s.chars()
        invariant
            v@ == it.seq().take(it.index()),
            it.seq() == s@,
    {
        v.push(c);
    }
    v
}

/// The string made of the characters `v[from..to]`.
pub fn from_range(v: &Vec<char>, from: usize, to: usize) -> (s: String)
    requires
        from <= to <= v.len(),
    ensures
        s@ == v@.subrange(from as int, to as int),
{
    let mut s: String = String::new();
    let mut i: usize = from;
    while i < to
        invariant
            from <= i <= to <= v.len(),
            s@ == v@.subrange(from as int, i as int),
        decreases to - i,
    {
        s.push(v[i]);
        i += 1;
    }
    s
}

pub fn from_chars(v: &Vec<char>) -> (s: String)
    ensures
        s@ == v@,
{
    from_range(v, 0, v.len())
}

pub fn own(s: &str) -> (r: String)
    ensures
        r@ == s@,
{
    s.to_owned()
}

pub fn cat2(a: &str, b: &str) -> (r: String)
    ensures
        r@ == a@ + b@,
{
    let mut r: String = a.to_owned();
    r.push_str(b);
    r
}

pub fn cat3(a: &str, b: &str, c: &str) -> (r: String)
    ensures
        r@ == a@ + b@ + c@,
{
    let mut r: String = cat2(a, b);
    r.push_str(c);
    r
}

pub fn cat4(a: &str, b: &str, c: &str, d: &str) -> (r: String)
    ensures
        r@ == a@ + b@ + c@ + d@,
{
    let mut r: String = cat3(a, b, c);
    r.push_str(d);
    r
}

/// Whether two strings hold the same characters.
pub fn same(a: &str, b: &str) -> (r: bool)
    ensures
        r == (a@ == b@),
{
    let x: Vec<char> = to_chars(a);
    let y: Vec<char> = to_chars(b);
    if x.len() != y.len() {
        return false;
    }
    let mut i: usize = 0;
    while i < x.len()
        invariant
            i <= x.len(),
            x.len() == y.len(),
            x@ == a@,
            y@ == b@,
            x@.take(i as int) =~= y@.take(i as int),
        decreases x.len() - i,
    {
        if x[i] != y[i] {
            assert(a@[i as int] != b@[i as int]);
            return false;
        }
        assert(x@.take(i + 1) =~= x@.take(i as int).push(x@[i as int]));
        assert(y@.take(i + 1) =~= y@.take(i as int).push(y@[i as int]));
        i += 1;
    }
    assert(x@.take(i as int) =~= x@);
    assert(y@.take(i as int) =~= y@);
    true
}

/// `n` in decimal.
pub fn decimal(n: u64) -> (r: String)
    ensures
        r@ == dec(n as nat),
    decreases n,
{
    if n < 10 {
        let mut r: String = String::new();
        r.push(digit_char(n));
        r
    } else {
        let mut r: String = decimal(n / 10);
        r.push(digit_char(n % 10));
        r
    }
}

fn digit_char(n: u64) -> (c: char)
    requires
        n < 10,
    ensures
        c == digit(n as nat),
{
    match n {
        0 => '0',
        1 => '1',
        2 => '2',
        3 => '3',
        4 => '4',
        5 => '5',
        6 => '6',
        7 => '7',
        8 => '8',
        _ => '9',
    }
}

/// `c` repeated `n` times.
pub fn repeat(c: char, n: usize) -> (r: String)
    ensures
        r@ == rep(c, n as nat),
{
    let mut r: String = String::new();
    let mut i: usize = 0;
    while i < n
        invariant
            i <= n,
            r@ == rep(c, i as nat),
        decreases n - i,
    {
        r.push(c);
        i += 1;
    }
    r
}

/// Whether every character of a string is white space.
pub fn is_blank(s: &str) -> (r: bool)
    ensures
        r == all_white(s@),
{
    let v: Vec<char> = to_chars(s);
    let mut i: usize = 0;
    while i < v.len()
        invariant
            i <= v.len(),
            v@ == s@,
            forall|j: int| 0 <= j < i ==> white_space(#[trigger] v@[j]),
        decreases v.len() - i,
    {
        if !is_whitespace(v[i]) {
            assert(!white_space(s@[i as int]));
            return false;
        }
        i += 1;
    }
    true
}

/// The first position at or after `from` that holds `c`, or the length.
pub fn find_char(v: &Vec<char>, c: char, from: usize) -> (r: usize)
    requires
        from <= v.len(),
    ensures
        r == find_from(v@, c, from as int),
        from <= r <= v.len(),
{
    let mut i: usize = from;
    while i < v.len()
        invariant
            from <= i <= v.len(),
            find_from(v@, c, from as int) == find_from(v@, c, i as int),
        decreases v.len() - i,
    {
        if v[i] == c {
            return i;
        }
        i += 1;
    }
    i
}

/// The lines of a text.
pub fn split_lines(s: &str) -> (r: Vec<String>)
    ensures
        views(r@) == lines(s@),
{
    let v: Vec<char> = to_chars(s);
    let mut r: Vec<String> = Vec::new();
    let mut start: usize = 0;
    assert(views(r@) + lines_from(v@, 0) =~= lines_from(v@, 0));
    while start < v.len()
        invariant
            start <= v.len(),
            v@ == s@,
            views(r@) + lines_from(v@, start as int) == lines_from(v@, 0),
        decreases v.len() - start,
    {
        let ghost before = views(r@);
        let end: usize = find_char(&v, '\n', start);
        if end >= v.len() {
            r.push(from_range(&v, start, v.len()));
            assert(views(r@) =~= before.push(v@.subrange(start as int, v@.len() as int)));
            assert(lines_from(v@, start as int) =~= seq![v@.subrange(start as int, v@.len() as int)]);
            assert(views(r@) =~= before + lines_from(v@, start as int));
            return r;
        }
        let stop: usize = if end > start && v[end - 1] == '\r' {
            end - 1
        } else {
            end
        };
        r.push(from_range(&v, start, stop));
        assert(views(r@) =~= before.push(v@.subrange(start as int, stop as int)));
        assert(views(r@) + lines_from(v@, end + 1) =~= before + lines_from(v@, start as int));
        start = end + 1;
    }
    assert(views(r@) + lines_from(v@, start as int) =~= views(r@));
    r
}

/// From where the trailing characters take at most `max` bytes, those from `i`
/// on taking `used`.
pub open spec fn tail_start(s: Seq<char>, i: int, used: nat, max: nat) -> int
    decreases i,
{
    if 0 < i <= s.len() && used + char_bytes(s[i - 1]) <= max {
        tail_start(s, i - 1, used + char_bytes(s[i - 1]), max)
    } else {
        i
    }
}

/// The longest tail of `s` in at most `max` bytes.
pub open spec fn tail(s: Seq<char>, max: nat) -> Seq<char> {
    s.skip(tail_start(s, s.len() as int, 0, max))
}

pub proof fn lemma_byte_len_front(s: Seq<char>)
    requires
        s.len() > 0,
    ensures
        byte_len(s) == char_bytes(s[0]) + byte_len(s.drop_first()),
    decreases s.len(),
{
    if s.len() == 1 {
        assert(s.drop_last() =~= Seq::empty());
        assert(s.drop_first() =~= Seq::empty());
        assert(byte_len(s.drop_last()) == 0);
    } else {
        lemma_byte_len_front(s.drop_last());
        assert(s.drop_last().drop_first() =~= s.drop_first().drop_last());
    }
}

pub proof fn lemma_byte_len_concat(a: Seq<char>, b: Seq<char>)
    ensures
        byte_len(a + b) == byte_len(a) + byte_len(b),
    decreases b.len(),
{
    if b.len() == 0 {
        assert(a + b =~= a);
    } else {
        lemma_byte_len_concat(a, b.drop_last());
        assert((a + b).drop_last() =~= a + b.drop_last());
    }
}

proof fn lemma_tail_start(s: Seq<char>, i: int, used: nat, max: nat)
    requires
        0 <= i <= s.len(),
        used == byte_len(s.skip(i)),
        used <= max,
    ensures
        0 <= tail_start(s, i, used, max) <= i,
        byte_len(s.skip(tail_start(s, i, used, max))) <= max,
    decreases i,
{
    if 0 < i && used + char_bytes(s[i - 1]) <= max {
        lemma_byte_len_front(s.skip(i - 1));
        assert(s.skip(i - 1).drop_first() =~= s.skip(i));
        lemma_tail_start(s, i - 1, used + char_bytes(s[i - 1]), max);
    }
}

/// A tail takes no more bytes than it may, and is the end of the text.
pub proof fn law_tail_is_bounded(s: Seq<char>, max: nat)
    ensures
        byte_len(tail(s, max)) <= max,
        tail(s, max).is_suffix_of(s),
{
    assert(s.skip(s.len() as int) =~= Seq::empty());
    lemma_tail_start(s, s.len() as int, 0, max);
}

/// The bytes of one character.
pub fn char_len(c: char) -> (r: usize)
    ensures
        r == char_bytes(c),
{
    let n: u32 = c as u32;
    if n < 0x80 {
        1
    } else if n < 0x800 {
        2
    } else if n < 0x10000 {
        3
    } else {
        4
    }
}

/// Whether a text takes more than `max` bytes.
pub fn longer_than(s: &str, max: usize) -> (r: bool)
    ensures
        r == (byte_len(s@) > max),
{
    let v: Vec<char> = to_chars(s);
    let mut used: usize = 0;
    let mut i: usize = v.len();
    assert(v@.skip(i as int) =~= Seq::empty());
    while i > 0
        invariant
            i <= v.len(),
            v@ == s@,
            used == byte_len(v@.skip(i as int)),
            used <= max,
        decreases i,
    {
        proof {
            lemma_byte_len_front(v@.skip(i - 1));
            assert(v@.skip(i - 1).drop_first() =~= v@.skip(i as int));
            lemma_byte_len_concat(v@.take(i - 1), v@.skip(i - 1));
            assert(v@.take(i - 1) + v@.skip(i - 1) =~= v@);
        }
        let n: usize = char_len(v[i - 1]);
        if n > max - used {
            return true;
        }
        used = used + n;
        i -= 1;
    }
    assert(v@.skip(0) =~= v@);
    false
}

/// The bytes of a text.
pub fn count_bytes(s: &str) -> (r: usize)
    requires
        byte_len(s@) <= usize::MAX,
    ensures
        r == byte_len(s@),
{
    let v: Vec<char> = to_chars(s);
    let mut used: usize = 0;
    let mut i: usize = v.len();
    assert(v@.skip(i as int) =~= Seq::empty());
    while i > 0
        invariant
            i <= v.len(),
            v@ == s@,
            byte_len(s@) <= usize::MAX,
            used == byte_len(v@.skip(i as int)),
        decreases i,
    {
        proof {
            lemma_byte_len_front(v@.skip(i - 1));
            assert(v@.skip(i - 1).drop_first() =~= v@.skip(i as int));
            lemma_byte_len_concat(v@.take(i - 1), v@.skip(i - 1));
            assert(v@.take(i - 1) + v@.skip(i - 1) =~= v@);
        }
        used = used + char_len(v[i - 1]);
        i -= 1;
    }
    assert(v@.skip(0) =~= v@);
    used
}

/// The longest tail of a text in at most `max` bytes.
pub fn tail_str(s: &str, max: usize) -> (r: String)
    ensures
        r@ == tail(s@, max as nat),
{
    let v: Vec<char> = to_chars(s);
    let mut used: usize = 0;
    let mut i: usize = v.len();
    while i > 0 && char_len(v[i - 1]) <= max - used
        invariant
            i <= v.len(),
            used <= max,
            tail_start(v@, v@.len() as int, 0, max as nat) == tail_start(
                v@,
                i as int,
                used as nat,
                max as nat,
            ),
        decreases i,
    {
        used = used + char_len(v[i - 1]);
        i -= 1;
    }
    assert(v@.subrange(i as int, v@.len() as int) =~= v@.skip(i as int));
    from_range(&v, i, v.len())
}

} // verus!
