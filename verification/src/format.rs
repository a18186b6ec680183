//! Values as text: sizes, durations, context use, and text made safe to show.

use vstd::prelude::*;
use crate::chars::{
    cat2, cat3, cat4, control, dec, decimal, find_from, from_range, group_views, is_control, join,
    lemma_find_from, lines, lines_from, own, rep, repeat, split_lines, to_chars, views,
};

verus! {

broadcast use group_views;

/// `n / d` rounded to the nearest integer, halves to the even one.
pub open spec fn round_half_even(n: nat, d: nat) -> nat {
    let q = n / d;
    let r = n % d;
    if 2 * r > d || 2 * r == d && q % 2 == 1 {
        q + 1
    } else {
        q
    }
}

/// The weight of the last of the 53 leading bits of `n`, a 64-bit number.
pub open spec fn ulp(n: nat, step: nat) -> nat
    decreases 4096 - step,
{
    if step < 1 || step >= 2048 || n < 0x20_0000_0000_0000 * step {
        step
    } else {
        ulp(n, 2 * step)
    }
}

/// The double-precision number nearest to `n`, a 64-bit number.
pub open spec fn nearest_double(n: nat) -> nat {
    round_half_even(n, ulp(n, 1)) * ulp(n, 1)
}

/// `n` tenths with their decimal point.
pub open spec fn tenths(n: nat) -> Seq<char> {
    dec(n / 10) + "."@ + dec(n % 10)
}

/// A byte count: exact below a kibibyte, else in tenths of the unit, a half
/// going to the even tenth. The count is read to double precision.
pub open spec fn bytes_text(n: nat) -> Seq<char> {
    if n < 1024 {
        dec(n) + " B"@
    } else if n < 1024 * 1024 {
        tenths(round_half_even(10 * nearest_double(n), 1024)) + " KiB"@
    } else {
        tenths(round_half_even(10 * nearest_double(n), 1024 * 1024)) + " MiB"@
    }
}

/// A duration in whole seconds.
pub open spec fn elapsed_text(seconds: nat) -> Seq<char> {
    if seconds < 60 {
        dec(seconds) + "s"@
    } else {
        dec(seconds / 60) + "m "@ + dec(seconds % 60) + "s"@
    }
}

/// The least power of two, from `unit` on, that brings `n` times it to 53 bits
/// over `d`. A double-precision number from one up has no finer binary place.
pub open spec fn last_place(n: nat, d: nat, unit: nat) -> nat
    decreases 0x20_0000_0000_0000 - unit,
{
    if unit < 1 || unit >= 0x10_0000_0000_0000 || n * unit >= 0x10_0000_0000_0000 * d {
        unit
    } else {
        last_place(n, d, 2 * unit)
    }
}

/// The tenths of `n / d`, a half going to the even tenth. The count and the
/// quotient are each read to double precision.
pub open spec fn quotient_tenths(n: nat, d: nat) -> nat {
    let read = nearest_double(n);
    let unit = last_place(read, d, 1);
    round_half_even(10 * round_half_even(read * unit, d), unit)
}

/// A token count: exact below a thousand, else in tenths of thousands or
/// millions.
pub open spec fn tokens_text(tokens: nat) -> Seq<char> {
    if tokens >= 1_000_000 {
        tenths(quotient_tenths(tokens, 1_000_000)) + "m"@
    } else if tokens >= 1_000 {
        tenths(quotient_tenths(tokens, 1_000)) + "k"@
    } else {
        dec(tokens)
    }
}

/// A token count in whole thousands or millions.
pub open spec fn tokens_compact(tokens: nat) -> Seq<char> {
    if tokens >= 1_000_000 {
        dec(tokens / 1_000_000) + "m"@
    } else if tokens >= 1_000 {
        dec(tokens / 1_000) + "k"@
    } else {
        dec(tokens)
    }
}

/// `used` as a percentage of `limit`, on 64 bits.
pub open spec fn percent(used: nat, limit: nat) -> nat {
    (if used * 100 <= u64::MAX {
        used * 100
    } else {
        u64::MAX as nat
    }) / limit
}

pub open spec fn estimate_mark(estimated: bool) -> Seq<char> {
    if estimated {
        "~"@
    } else {
        ""@
    }
}

/// The context in use, and the share of the limit that it is.
pub open spec fn usage_text(used: nat, limit: Option<u64>, estimated: bool) -> Seq<char> {
    match limit {
        Some(limit) if limit > 0 => "ctx "@ + estimate_mark(estimated) + tokens_text(used) + "/"@
            + tokens_text(limit as nat) + " · "@ + dec(percent(used, limit as nat)) + "%"@,
        _ => "ctx "@ + estimate_mark(estimated) + tokens_text(used) + "/? · —%"@,
    }
}

/// How many of `cells` a meter fills: the share of the limit, rounded up.
pub open spec fn filled_cells(percent: nat, cells: nat) -> nat {
    let share = if percent <= 100 {
        percent
    } else {
        100
    };
    let product = if share * cells <= usize::MAX {
        share * cells
    } else {
        usize::MAX as nat
    };
    (if product + 99 <= usize::MAX {
        product + 99
    } else {
        usize::MAX as nat
    }) / 100
}

pub open spec fn meter_text(used: nat, limit: nat, estimated: bool, cells: nat) -> Seq<char> {
    let filled = filled_cells(percent(used, limit), cells);
    let rest = if filled <= cells {
        (cells - filled) as nat
    } else {
        0
    };
    "ctx ["@ + rep('█', filled) + rep('░', rest) + "] "@ + estimate_mark(estimated) + dec(
        percent(used, limit),
    ) + "%"@
}

/// A path below the home directory is written from `~`.
pub open spec fn path_text(below_home: Option<Seq<char>>, whole: Seq<char>) -> Seq<char> {
    match below_home {
        Some(rest) => if rest.len() == 0 {
            "~"@
        } else {
            "~/"@ + rest
        },
        None => whole,
    }
}

/// The text as a terminal can show it: a tab reaches the next multiple of four
/// columns, other control characters go.
pub open spec fn safe(s: Seq<char>) -> Seq<char>
    decreases s.len(),
{
    if s.len() == 0 {
        Seq::empty()
    } else {
        let before = safe(s.drop_last());
        let c = s.last();
        if c == '\t' {
            before + rep(' ', (4 - before.len() % 4) as nat)
        } else if control(c) {
            before
        } else {
            before.push(c)
        }
    }
}

/// Each line made safe.
pub open spec fn safe_each(parts: Seq<Seq<char>>) -> Seq<Seq<char>> {
    parts.map_values(|l: Seq<char>| safe(l))
}

/// The safe lines of a text; a text without lines is one empty line.
pub open spec fn safe_line_list(s: Seq<char>) -> Seq<Seq<char>> {
    if lines(s).len() == 0 {
        seq![Seq::empty()]
    } else {
        safe_each(lines(s))
    }
}

/// The characters of a tool's output that are kept.
pub const MAX_DETAIL_CHARS: usize = 16384;

/// The safe text with its lines joined, cut where it is too long.
pub open spec fn detail(s: Seq<char>) -> Seq<char> {
    let whole = join(safe_each(lines(s)), "\n"@);
    if whole.len() > MAX_DETAIL_CHARS {
        whole.take(MAX_DETAIL_CHARS as int) + "\n… output truncated"@
    } else {
        whole
    }
}

/// No control character is left in a safe text.
pub proof fn law_safe_text_has_no_controls(s: Seq<char>)
    ensures
        forall|i: int| 0 <= i < safe(s).len() ==> !control(#[trigger] safe(s)[i]),
    decreases s.len(),
{
    if s.len() > 0 {
        law_safe_text_has_no_controls(s.drop_last());
        let before = safe(s.drop_last());
        assert forall|i: int| 0 <= i < safe(s).len() implies !control(#[trigger] safe(s)[i]) by {
            if i < before.len() {
                assert(safe(s)[i] == before[i]);
            }
        }
    }
}

/// Text that is safe already stays as it is.
pub proof fn law_safe_text_is_kept(s: Seq<char>)
    requires
        forall|i: int| 0 <= i < s.len() ==> !control(#[trigger] s[i]),
    ensures
        safe(s) == s,
    decreases s.len(),
{
    if s.len() > 0 {
        law_safe_text_is_kept(s.drop_last());
        assert(!control(s[s.len() - 1]));
        assert(s.drop_last().push(s.last()) =~= s);
    }
}

/// A text is made safe character by character: one that can be shown stays, a tab
/// becomes the blanks up to the next multiple of four columns, and any other control
/// character goes.
pub proof fn law_each_character_is_made_safe(s: Seq<char>, c: char)
    ensures
        ({
            let before = safe(s);
            let after = safe(s.push(c));
            &&& !control(c) ==> after == before.push(c)
            &&& control(c) && c != '\t' ==> after == before
            &&& c == '\t' ==> {
                &&& after.len() % 4 == 0
                &&& before.len() < after.len() <= before.len() + 4
                &&& after.take(before.len() as int) == before
                &&& forall|i: int| before.len() <= i < after.len() ==> after[i] == ' '
            }
        }),
{
    assert(s.push(c).drop_last() =~= s);
    let before = safe(s);
    if c == '\t' {
        assert(safe(s.push(c)).take(before.len() as int) =~= before);
    }
}

proof fn lemma_join_front(first: Seq<char>, rest: Seq<Seq<char>>, sep: Seq<char>)
    requires
        rest.len() > 0,
    ensures
        join(seq![first] + rest, sep) == first + sep + join(rest, sep),
    decreases rest.len(),
{
    let all = seq![first] + rest;
    assert(all.drop_last() =~= seq![first] + rest.drop_last());
    if rest.len() == 1 {
        assert(rest.drop_last() =~= Seq::empty());
        assert(all.drop_last() =~= seq![first]);
        assert(join(seq![first], sep) == first);
        assert(join(rest, sep) == rest[0]);
        assert(all.last() == rest[0]);
    } else {
        lemma_join_front(first, rest.drop_last(), sep);
        assert(join(all, sep) =~= first + sep + join(rest, sep));
    }
}

proof fn lemma_lines_joined(s: Seq<char>, start: int)
    requires
        0 <= start < s.len(),
        s.last() != '\n',
        forall|i: int| 0 <= i < s.len() ==> s[i] != '\r',
    ensures
        join(lines_from(s, start), "\n"@) == s.skip(start),
        lines_from(s, start).len() > 0,
    decreases s.len() - start,
{
    reveal_strlit("\n");
    lemma_find_from(s, '\n', start);
    let end = find_from(s, '\n', start);
    if end >= s.len() {
        assert(s.subrange(start, s.len() as int) =~= s.skip(start));
    } else {
        lemma_lines_joined(s, end + 1);
        lemma_join_front(s.subrange(start, end), lines_from(s, end + 1), "\n"@);
        assert(s.subrange(start, end) + "\n"@ + s.skip(end + 1) =~= s.skip(start));
    }
}

proof fn lemma_lines_are_safe(s: Seq<char>, start: int)
    requires
        0 <= start,
        forall|i: int| 0 <= i < s.len() ==> !control(#[trigger] s[i]) || s[i] == '\n',
    ensures
        safe_each(lines_from(s, start)) == lines_from(s, start),
    decreases s.len() - start,
{
    if start < s.len() {
        lemma_find_from(s, '\n', start);
        let end = find_from(s, '\n', start);
        let first = s.subrange(start, end);
        assert forall|i: int| 0 <= i < first.len() implies !control(#[trigger] first[i]) by {
            assert(first[i] == s[start + i]);
        }
        law_safe_text_is_kept(first);
        if end < s.len() {
            lemma_lines_are_safe(s, end + 1);
            let rest = lines_from(s, end + 1);
            assert(end > start ==> s[end - 1] != '\r') by {
                if end > start {
                    assert(!control(s[end - 1]));
                }
            }
            assert(safe_each(lines_from(s, start)) =~= lines_from(s, start)) by {
                assert forall|i: int| 0 <= i < rest.len() implies safe(#[trigger] rest[i])
                    == rest[i] by {
                    assert(safe_each(rest)[i] == rest[i]);
                }
            }
        } else {
            assert(safe_each(lines_from(s, start)) =~= lines_from(s, start));
        }
    } else {
        assert(safe_each(lines_from(s, start)) =~= lines_from(s, start));
    }
}

/// A result that can be shown as it is is kept as it is, line feeds and all, as long
/// as it is not too long. Left out is one that ends in a line feed, which goes.
pub proof fn law_a_plain_result_is_kept(s: Seq<char>)
    requires
        0 < s.len() <= MAX_RESULT_CHARS,
        s.last() != '\n',
        forall|i: int| 0 <= i < s.len() ==> !control(#[trigger] s[i]) || s[i] == '\n',
    ensures
        kept_detail(s) == s,
{
    reveal_strlit("\n… output truncated");
    assert forall|i: int| 0 <= i < s.len() implies s[i] != '\r' by {
        assert(!control(s[i]) || s[i] == '\n');
    }
    lemma_lines_joined(s, 0);
    lemma_lines_are_safe(s, 0);
    assert(s.skip(0) =~= s);
}

/// A kept detail has a bounded length, whatever the output.
pub proof fn law_detail_is_bounded(s: Seq<char>)
    ensures
        detail(s).len() <= MAX_DETAIL_CHARS + "\n… output truncated"@.len(),
{
}

fn round_half_even_exec(n: u128, d: u128) -> (r: u128)
    requires
        0 < d < 0x1_0000_0000_0000_0000,
        n < u128::MAX,
    ensures
        r == round_half_even(n as nat, d as nat),
        r <= n / d + 1,
{
    let q: u128 = n / d;
    let r: u128 = n % d;
    if 2 * r > d || (2 * r == d && q % 2 == 1) {
        q + 1
    } else {
        q
    }
}

fn nearest_double_exec(n: u64) -> (r: u128)
    ensures
        r == nearest_double(n as nat),
        r <= 0x2_0000_0000_0000_0000,
{
    let mut step: u128 = 1;
    while step < 2048 && n as u128 >= 0x20_0000_0000_0000 * step
        invariant
            1 <= step <= 4096,
            ulp(n as nat, 1) == ulp(n as nat, step as nat),
        decreases 4096 - step,
    {
        step = 2 * step;
    }
    let q: u128 = round_half_even_exec(n as u128, step);
    assert(q * step <= n + step) by (nonlinear_arith)
        requires
            q <= n as u128 / step + 1,
            step > 0,
    ;
    q * step
}

/// `n` tenths with their decimal point.
fn tenths_exec(n: u64) -> (r: String)
    ensures
        r@ == tenths(n as nat),
{
    cat3(decimal(n / 10).as_str(), ".", decimal(n % 10).as_str())
}

pub fn format_bytes(bytes: u64) -> (r: String)
    ensures
        r@ == bytes_text(bytes as nat),
{
    if bytes < 1024 {
        return cat2(decimal(bytes).as_str(), " B");
    }
    let read: u128 = nearest_double_exec(bytes);
    if bytes < 1024 * 1024 {
        let t: u128 = round_half_even_exec(10 * read, 1024);
        cat2(tenths_exec(t as u64).as_str(), " KiB")
    } else {
        let t: u128 = round_half_even_exec(10 * read, 1024 * 1024);
        cat2(tenths_exec(t as u64).as_str(), " MiB")
    }
}

/// A duration, given in seconds.
pub fn format_elapsed(seconds: u64) -> (r: String)
    ensures
        r@ == elapsed_text(seconds as nat),
{
    if seconds < 60 {
        cat2(decimal(seconds).as_str(), "s")
    } else {
        cat4(decimal(seconds / 60).as_str(), "m ", decimal(seconds % 60).as_str(), "s")
    }
}

fn quotient_tenths_exec(n: u64, d: u128) -> (r: u64)
    requires
        d == 1_000 || d == 1_000_000,
    ensures
        r == quotient_tenths(n as nat, d as nat),
{
    let read: u128 = nearest_double_exec(n);
    let mut unit: u128 = 1;
    let mut scaled: u128 = read;
    while unit < 0x10_0000_0000_0000 && scaled < 0x10_0000_0000_0000 * d
        invariant
            d == 1_000 || d == 1_000_000,
            1 <= unit <= 0x20_0000_0000_0000,
            scaled == read * unit,
            scaled <= 0x2_0000_0000_0000_0000 || scaled < 0x20_0000_0000_0000 * d,
            last_place(read as nat, d as nat, 1) == last_place(read as nat, d as nat, unit as nat),
        decreases 0x20_0000_0000_0000 - unit,
    {
        assert(2 * (read * unit) == read * (2 * unit)) by (nonlinear_arith);
        assert(read as nat * unit as nat == read * unit) by (nonlinear_arith);
        unit = 2 * unit;
        scaled = 2 * scaled;
    }
    assert(read as nat * unit as nat == read * unit) by (nonlinear_arith);
    let nearest: u128 = round_half_even_exec(scaled, d);
    let r: u128 = round_half_even_exec(10 * nearest, unit);
    assert(10 * nearest / unit as int <= 10 * nearest) by (nonlinear_arith)
        requires
            unit >= 1,
            nearest >= 0,
    ;
    r as u64
}

pub fn format_tokens(tokens: u64) -> (r: String)
    ensures
        r@ == tokens_text(tokens as nat),
{
    if tokens >= 1_000_000 {
        cat2(tenths_exec(quotient_tenths_exec(tokens, 1_000_000)).as_str(), "m")
    } else if tokens >= 1_000 {
        cat2(tenths_exec(quotient_tenths_exec(tokens, 1_000)).as_str(), "k")
    } else {
        decimal(tokens)
    }
}

pub fn format_tokens_compact(tokens: u64) -> (r: String)
    ensures
        r@ == tokens_compact(tokens as nat),
{
    if tokens >= 1_000_000 {
        cat2(decimal(tokens / 1_000_000).as_str(), "m")
    } else if tokens >= 1_000 {
        cat2(decimal(tokens / 1_000).as_str(), "k")
    } else {
        decimal(tokens)
    }
}

fn percent_of(used: u64, limit: u64) -> (r: u64)
    requires
        limit > 0,
    ensures
        r == percent(used as nat, limit as nat),
{
    let product: u64 = if used <= u64::MAX / 100 {
        used * 100
    } else {
        u64::MAX
    };
    product / limit
}

fn mark(estimated: bool) -> (r: &'static str)
    ensures
        r@ == estimate_mark(estimated),
{
    if estimated {
        "~"
    } else {
        ""
    }
}

/// The context in use.
pub fn context_usage(used: u64, limit: Option<u64>, estimated: bool) -> (r: String)
    ensures
        r@ == usage_text(used as nat, limit, estimated),
{
    let mut r: String = cat3("ctx ", mark(estimated), format_tokens(used).as_str());
    match limit {
        Some(limit) if limit > 0 => {
            r.push_str("/");
            r.push_str(format_tokens(limit).as_str());
            r.push_str(" · ");
            r.push_str(decimal(percent_of(used, limit)).as_str());
            r.push_str("%");
        },
        _ => {
            r.push_str("/? · —%");
        },
    }
    r
}

pub fn context_meter(used: u64, limit: Option<u64>, estimated: bool, cells: usize) -> (r: Option<
    String,
>)
    ensures
        match limit {
            Some(limit) if limit > 0 => r matches Some(text) && text@ == meter_text(
                used as nat,
                limit as nat,
                estimated,
                cells as nat,
            ),
            _ => r is None,
        },
{
    match limit {
        Some(limit) if limit > 0 => {
            let percent: u64 = percent_of(used, limit);
            let share: usize = if percent <= 100 {
                percent as usize
            } else {
                100
            };
            let product: usize = match share.checked_mul(cells) {
                Some(product) => product,
                None => usize::MAX,
            };
            let filled: usize = product.saturating_add(99) / 100;
            let mut r: String = cat3(
                "ctx [",
                repeat('█', filled).as_str(),
                repeat('░', cells.saturating_sub(filled)).as_str(),
            );
            r.push_str("] ");
            r.push_str(mark(estimated));
            r.push_str(decimal(percent).as_str());
            r.push_str("%");
            Some(r)
        },
        _ => None,
    }
}

/// A path, given as it reads below the home directory, where it lies there, and
/// as it reads in whole.
pub fn abbreviated_path(below_home: Option<&str>, whole: &str) -> (r: String)
    ensures
        r@ == path_text(
            match below_home {
                Some(rest) => Some(rest@),
                None => None,
            },
            whole@,
        ),
{
    match below_home {
        Some(rest) => if rest.is_empty() {
            own("~")
        } else {
            cat2("~/", rest)
        },
        None => own(whole),
    }
}

pub fn safe_text(text: &str) -> (r: String)
    ensures
        r@ == safe(text@),
{
    let v: Vec<char> = to_chars(text);
    let mut r: String = String::new();
    let mut column: usize = 0;
    let mut i: usize = 0;
    assert(v@.take(0) =~= Seq::empty());
    while i < v.len()
        invariant
            i <= v.len(),
            r@ == safe(v@.take(i as int)),
            column < 4,
            column == r@.len() % 4,
        decreases v.len() - i,
    {
        assert(v@.take(i + 1).drop_last() =~= v@.take(i as int));
        let c: char = v[i];
        if c == '\t' {
            r.push_str(repeat(' ', 4 - column).as_str());
            column = 0;
        } else if !is_control(c) {
            r.push(c);
            column = if column == 3 {
                0
            } else {
                column + 1
            };
        }
        i += 1;
    }
    assert(v@.take(i as int) =~= v@);
    r
}

fn safe_text_each(parts: &Vec<String>) -> (r: Vec<String>)
    ensures
        views(r@) == safe_each(views(parts@)),
{
    let mut r: Vec<String> = Vec::new();
    let mut i: usize = 0;
    while i < parts.len()
        invariant
            i <= parts.len(),
            views(r@) == safe_each(views(parts@)).take(i as int),
        decreases parts.len() - i,
    {
        r.push(safe_text(parts[i].as_str()));
        i += 1;
        assert(views(r@) =~= safe_each(views(parts@)).take(i as int));
    }
    assert(views(r@) =~= safe_each(views(parts@)));
    r
}

pub fn safe_lines(text: &str) -> (r: Vec<String>)
    ensures
        views(r@) == safe_line_list(text@),
{
    let parts: Vec<String> = split_lines(text);
    assert(views(parts@).len() == parts@.len());
    if parts.len() == 0 {
        let mut r: Vec<String> = Vec::new();
        r.push(String::new());
        assert(views(r@) =~= seq![Seq::empty()]);
        r
    } else {
        safe_text_each(&parts)
    }
}

/// The parts joined with `sep` between them.
pub fn join_strings(parts: &Vec<String>, sep: &str) -> (r: String)
    ensures
        r@ == join(views(parts@), sep@),
{
    let ghost all = views(parts@);
    let mut r: String = String::new();
    let mut i: usize = 0;
    assert(all.take(0) =~= Seq::empty());
    while i < parts.len()
        invariant
            i <= parts.len(),
            all == views(parts@),
            r@ == join(all.take(i as int), sep@),
        decreases parts.len() - i,
    {
        assert(all.take(i + 1).drop_last() =~= all.take(i as int));
        assert(all[i as int] == parts@[i as int]@);
        if i > 0 {
            r.push_str(sep);
        }
        r.push_str(parts[i].as_str());
        proof {
            if i == 0 {
                assert(r@ =~= all[0]);
            }
        }
        i += 1;
    }
    assert(all.take(i as int) =~= all);
    r
}

pub fn bounded_detail(text: &str) -> (r: String)
    ensures
        r@ == detail(text@),
{
    let whole: String = join_strings(&safe_text_each(&split_lines(text)), "\n");
    let v: Vec<char> = to_chars(whole.as_str());
    if v.len() > MAX_DETAIL_CHARS {
        assert(v@.subrange(0, MAX_DETAIL_CHARS as int) =~= v@.take(MAX_DETAIL_CHARS as int));
        cat2(from_range(&v, 0, MAX_DETAIL_CHARS).as_str(), "\n… output truncated")
    } else {
        whole
    }
}

/// What ends a text that was cut.
pub open spec fn cut_mark() -> Seq<char> {
    "\n… output truncated"@
}

/// The characters of a tool's result that are kept.
pub const MAX_RESULT_CHARS: usize = 262144;

/// The text in at most `max` characters. One that is cut ends in the mark, and
/// lands on the bound.
pub open spec fn bounded(s: Seq<char>, max: nat) -> Seq<char> {
    if s.len() > max && cut_mark().len() <= max {
        s.take(max - cut_mark().len()) + cut_mark()
    } else {
        s
    }
}

/// A result as it is kept: cut, then made safe line by line.
pub open spec fn kept_detail(s: Seq<char>) -> Seq<char> {
    join(safe_each(lines(bounded(s, MAX_RESULT_CHARS as nat))), "\n"@)
}

/// A cut text lands on the bound, and one that fits stays as it is.
pub proof fn law_bounded_text_lands_on_the_bound(s: Seq<char>, max: nat)
    requires
        cut_mark().len() <= max,
    ensures
        bounded(s, max).len() <= max,
        s.len() > max ==> bounded(s, max).len() == max,
        s.len() <= max ==> bounded(s, max) == s,
{
}

/// The text in at most `max` characters.
pub fn bound(s: &str, max: usize) -> (r: String)
    ensures
        r@ == bounded(s@, max as nat),
{
    let v: Vec<char> = to_chars(s);
    let mark: Vec<char> = to_chars("\n… output truncated");
    if v.len() > max && mark.len() <= max {
        let n: usize = max - mark.len();
        assert(v@.subrange(0, n as int) =~= v@.take(n as int));
        cat2(from_range(&v, 0, n).as_str(), "\n… output truncated")
    } else {
        own(s)
    }
}

/// A result as it is kept.
pub fn kept_result_detail(s: &str) -> (r: String)
    ensures
        r@ == kept_detail(s@),
{
    let cut: String = bound(s, MAX_RESULT_CHARS);
    join_strings(&safe_text_each(&split_lines(cut.as_str())), "\n")
}

/// A duration is told in seconds below a minute, and else in minutes and what is left.
pub proof fn law_a_duration_is_minutes_and_seconds(minutes: nat, seconds: nat)
    requires
        seconds < 60,
    ensures
        minutes == 0 ==> elapsed_text(seconds) == dec(seconds) + seq!['s'],
        minutes > 0 ==> elapsed_text(60 * minutes + seconds) == dec(minutes) + seq!['m', ' '] + dec(
            seconds,
        ) + seq!['s'],
{
    reveal_strlit("s");
    reveal_strlit("m ");
    assert("s"@ =~= seq!['s']);
    assert("m "@ =~= seq!['m', ' ']);
    assert((60 * minutes + seconds) / 60 == minutes);
    assert((60 * minutes + seconds) % 60 == seconds);
}

/// Few tokens are told exactly, more in whole thousands or millions where they are told
/// in short.
pub proof fn law_tokens_are_told_by_their_size(tokens: nat)
    ensures
        tokens < 1000 ==> tokens_text(tokens) == dec(tokens) && tokens_compact(tokens) == dec(
            tokens,
        ),
        1000 <= tokens < 1_000_000 ==> tokens_compact(tokens) == dec(tokens / 1000) + seq!['k']
            && tokens_text(tokens).last() == 'k',
        tokens >= 1_000_000 ==> tokens_compact(tokens) == dec(tokens / 1_000_000) + seq!['m']
            && tokens_text(tokens).last() == 'm',
{
    reveal_strlit("k");
    reveal_strlit("m");
    assert("k"@ =~= seq!['k']);
    assert("m"@ =~= seq!['m']);
}

/// Few bytes are told exactly, more in the unit of their size.
pub proof fn law_bytes_are_told_by_their_size(n: nat)
    ensures
        n < 1024 ==> bytes_text(n) == dec(n) + seq![' ', 'B'],
        n >= 1024 ==> {
            let t = bytes_text(n);
            &&& t.len() >= 4
            &&& t.skip(t.len() - 4) == (if n < 1024 * 1024 {
                seq![' ', 'K', 'i', 'B']
            } else {
                seq![' ', 'M', 'i', 'B']
            })
        },
{
    reveal_strlit(" B");
    reveal_strlit(" KiB");
    reveal_strlit(" MiB");
    assert(" B"@ =~= seq![' ', 'B']);
    if n >= 1024 {
        let t = bytes_text(n);
        assert(t.skip(t.len() - 4) =~= (if n < 1024 * 1024 {
            seq![' ', 'K', 'i', 'B']
        } else {
            seq![' ', 'M', 'i', 'B']
        }));
    }
}

/// A meter has as many cells as it was given, the first of them full: none where nothing
/// is used, and all where the limit is reached.
pub proof fn law_a_meter_fills_with_what_is_used(used: nat, limit: nat, cells: nat)
    requires
        0 < limit,
        used * 100 <= u64::MAX,
        100 * cells + 99 <= usize::MAX,
    ensures
        filled_cells(percent(used, limit), cells) <= cells,
        used == 0 ==> filled_cells(percent(used, limit), cells) == 0,
        used >= limit ==> filled_cells(percent(used, limit), cells) == cells,
        used > 0 && used * 100 >= limit && cells > 0 ==> filled_cells(percent(used, limit), cells)
            > 0,
{
    let p = percent(used, limit);
    let share = if p <= 100 {
        p
    } else {
        100
    };
    assert(share * cells <= 100 * cells) by (nonlinear_arith)
        requires
            share <= 100,
    ;
    if used == 0 {
        assert(0nat / limit == 0) by (nonlinear_arith)
            requires
                limit > 0,
        ;
        assert(0 * cells == 0);
    }
    if used >= limit {
        assert(used * 100 / limit >= 100) by (nonlinear_arith)
            requires
                limit > 0,
                used >= limit,
        ;
    }
    if used * 100 >= limit && cells > 0 {
        assert(used * 100 / limit >= 1) by (nonlinear_arith)
            requires
                limit > 0,
                used * 100 >= limit,
        ;
        assert(share * cells >= 1) by (nonlinear_arith)
            requires
                share >= 1,
                cells >= 1,
        ;
    }
}

} // verus!
