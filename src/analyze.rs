//! Reading the report of `systemd-analyze blame`: one line per unit, the
//! time the unit took to start followed by the unit's name.
use vstd::prelude::*;

use crate::text::{chars_of, copy_range, find_last, last_index_of};

verus! {

/// The largest value of a `u32`.
pub open spec fn u32_max() -> nat {
    0xffff_ffff
}

/// `v` capped at the largest `u32`.
pub open spec fn saturate(v: nat) -> nat {
    if v > u32_max() {
        u32_max()
    } else {
        v
    }
}

/// Whether `c` is white space: the characters with Unicode's White_Space
/// property, which `char::is_whitespace` tests.
pub open spec fn is_space(c: char) -> bool {
    ('\u{9}' <= c <= '\u{d}') || c == ' ' || c == '\u{85}' || c == '\u{a0}' || c == '\u{1680}'
        || ('\u{2000}' <= c <= '\u{200a}') || c == '\u{2028}' || c == '\u{2029}' || c == '\u{202f}'
        || c == '\u{205f}' || c == '\u{3000}'
}

fn space(c: char) -> (r: bool)
    ensures
        r == is_space(c),
{
    ('\u{9}' <= c && c <= '\u{d}') || c == ' ' || c == '\u{85}' || c == '\u{a0}' || c == '\u{1680}'
        || ('\u{2000}' <= c && c <= '\u{200a}') || c == '\u{2028}' || c == '\u{2029}' || c == '\u{202f}'
        || c == '\u{205f}' || c == '\u{3000}'
}

/// The words of `s`: its maximal runs of characters other than white space,
/// in order.
pub open spec fn words(s: Seq<char>) -> Seq<Seq<char>>
    decreases s.len(),
{
    if s.len() == 0 {
        Seq::empty()
    } else {
        let w = words(s.drop_last());
        if is_space(s.last()) {
            w
        } else if s.len() >= 2 && !is_space(s[s.len() - 2]) {
            w.update(w.len() - 1, w.last().push(s.last()))
        } else {
            w.push(seq![s.last()])
        }
    }
}

/// The value of a decimal digit.
pub open spec fn digit_value(c: char) -> Option<nat> {
    match c {
        '0' => Some(0),
        '1' => Some(1),
        '2' => Some(2),
        '3' => Some(3),
        '4' => Some(4),
        '5' => Some(5),
        '6' => Some(6),
        '7' => Some(7),
        '8' => Some(8),
        '9' => Some(9),
        _ => None,
    }
}

fn digit(c: char) -> (r: Option<u64>)
    ensures
        match r {
            Some(d) => digit_value(c) == Some(d as nat),
            None => digit_value(c) is None,
        },
{
    match c {
        '0' => Some(0),
        '1' => Some(1),
        '2' => Some(2),
        '3' => Some(3),
        '4' => Some(4),
        '5' => Some(5),
        '6' => Some(6),
        '7' => Some(7),
        '8' => Some(8),
        '9' => Some(9),
        _ => None,
    }
}

/// Whether every character of `s` is a decimal digit.
pub open spec fn all_digits(s: Seq<char>) -> bool {
    forall|i: int| 0 <= i < s.len() ==> (#[trigger] digit_value(s[i])) is Some
}

/// The number that the decimal digits `s` spell.
pub open spec fn digits_value(s: Seq<char>) -> nat
    decreases s.len(),
{
    if s.len() == 0 {
        0
    } else {
        digits_value(s.drop_last()) * 10 + match digit_value(s.last()) {
            Some(d) => d,
            None => 0,
        }
    }
}

/// `s` without one leading `+`.
pub open spec fn unsigned_part(s: Seq<char>) -> Seq<char> {
    if s.len() > 0 && s[0] == '+' {
        s.drop_first()
    } else {
        s
    }
}

/// The `u32` that `s` spells: an optional `+` and at least one decimal
/// digit, of a value that fits. This is what `str::parse::<u32>` accepts.
pub open spec fn u32_of(s: Seq<char>) -> Option<nat> {
    let d = unsigned_part(s);
    if d.len() > 0 && all_digits(d) && digits_value(d) <= u32_max() {
        Some(digits_value(d))
    } else {
        None
    }
}

/// The bound above every `u32`, at which running values are capped.
pub open spec fn cap() -> nat {
    0x1_0000_0000
}

/// `v` capped at `cap()`.
pub open spec fn min_cap(v: nat) -> nat {
    if v > cap() {
        cap()
    } else {
        v
    }
}

/// Reads decimal digits, capping the value at `cap()`.
fn digits_capped(d: &Vec<char>) -> (r: Option<u64>)
    ensures
        match r {
            Some(v) => all_digits(d@) && v as nat == min_cap(digits_value(d@)),
            None => !all_digits(d@),
        },
{
    let mut acc: u64 = 0;
    let mut i: usize = 0;
    while i < d.len()
        invariant
            i <= d.len(),
            all_digits(d@.subrange(0, i as int)),
            acc as nat == min_cap(digits_value(d@.subrange(0, i as int))),
        decreases d.len() - i,
    {
        let ghost prev = d@.subrange(0, i as int);
        let ghost next = d@.subrange(0, i as int + 1);
        assert(next.drop_last() =~= prev);
        match digit(d[i]) {
            Some(x) => {
                let ghost v = digits_value(prev);
                assert(digits_value(next) == v * 10 + x);
                if acc >= 0x1_0000_0000 {
                    assert(v >= cap());
                    assert(v * 10 + x >= cap()) by (nonlinear_arith)
                        requires v >= cap(), x >= 0;
                    acc = 0x1_0000_0000;
                } else {
                    assert(acc * 10 + x <= 0x1_0000_0000 * 10 + 9) by (nonlinear_arith)
                        requires acc < 0x1_0000_0000, x <= 9;
                    acc = acc * 10 + x;
                    if acc > 0x1_0000_0000 {
                        acc = 0x1_0000_0000;
                    }
                }
                assert forall|k: int| 0 <= k < i + 1 implies (#[trigger] digit_value(next[k])) is Some by {
                    if k < i {
                        assert(next[k] == prev[k]);
                    }
                }
            },
            None => {
                assert(!all_digits(d@)) by {
                    assert(digit_value(d@[i as int]) is None);
                }
                return None;
            },
        }
        i = i + 1;
    }
    assert(d@.subrange(0, d.len() as int) =~= d@);
    Some(acc)
}

/// Reads a `u32` the way `str::parse::<u32>` does.
fn u32_from(s: &Vec<char>) -> (r: Option<u64>)
    ensures
        match r {
            Some(v) => u32_of(s@) == Some(v as nat),
            None => u32_of(s@) is None,
        },
{
    let start: usize = if s.len() > 0 && s[0] == '+' { 1 } else { 0 };
    let d = copy_range(s, start, s.len());
    assert(d@ =~= unsigned_part(s@));
    if d.len() == 0 {
        return None;
    }
    match digits_capped(&d) {
        Some(v) => if v <= 0xffff_ffff {
            Some(v)
        } else {
            None
        },
        None => None,
    }
}

/// The value of the `i`-th digit of a fraction, 0 past its end.
pub open spec fn fraction_digit(f: Seq<char>, i: int) -> nat {
    if 0 <= i < f.len() {
        match digit_value(f[i]) {
            Some(d) => d,
            None => 0,
        }
    } else {
        0
    }
}

/// The thousandths that the digits after a decimal point give, dropping
/// any finer digits.
pub open spec fn millis_of_fraction(f: Seq<char>) -> nat {
    fraction_digit(f, 0) * 100 + fraction_digit(f, 1) * 10 + fraction_digit(f, 2)
}

/// A number of seconds, written in decimal with an optional `+` and an
/// optional fractional part, in whole milliseconds: rounded down, and capped
/// at the largest `u32`. Text of another form counts as 0.
pub open spec fn seconds_in_ms(s: Seq<char>) -> nat {
    let d = unsigned_part(s);
    let dot = last_index_of(d, '.');
    let whole = if dot < 0 { d } else { d.subrange(0, dot) };
    let frac = if dot < 0 { Seq::empty() } else { d.subrange(dot + 1, d.len() as int) };
    if whole.len() + frac.len() > 0 && all_digits(whole) && all_digits(frac) {
        saturate(digits_value(whole) * 1000 + millis_of_fraction(frac))
    } else {
        0
    }
}

fn fraction_digit_at(f: &Vec<char>, i: usize) -> (r: u64)
    ensures
        r as nat == fraction_digit(f@, i as int),
        r <= 9,
{
    if i < f.len() {
        match digit(f[i]) {
            Some(d) => d,
            None => 0,
        }
    } else {
        0
    }
}

/// `whole` seconds and `millis` thousandths in milliseconds, capped at the
/// largest `u32`, where `whole` is a value capped at `cap()`.
fn scaled_seconds(whole: u64, millis: u64, value: Ghost<nat>) -> (r: u64)
    requires
        whole as nat == min_cap(value@),
        millis <= 999,
    ensures
        r as nat == saturate(value@ * 1000 + millis as nat),
{
    let total = whole * 1000 + millis;
    proof {
        if value@ > cap() {
            assert(value@ * 1000 + millis >= u32_max()) by (nonlinear_arith)
                requires value@ > cap();
            assert(whole * 1000 + millis >= u32_max()) by (nonlinear_arith)
                requires whole == cap();
        }
    }
    if total > 0xffff_ffff {
        0xffff_ffff
    } else {
        total
    }
}

fn seconds_from(s: &Vec<char>) -> (r: u64)
    ensures
        r as nat == seconds_in_ms(s@),
{
    let start: usize = if s.len() > 0 && s[0] == '+' { 1 } else { 0 };
    let d = copy_range(s, start, s.len());
    assert(d@ =~= unsigned_part(s@));
    let ghost dot = last_index_of(d@, '.');
    let (whole, frac) = match find_last(&d, '.') {
        Some(dot) => (copy_range(&d, 0, dot), copy_range(&d, dot + 1, d.len())),
        None => (copy_range(&d, 0, d.len()), Vec::new()),
    };
    assert(whole@ == if dot < 0 { d@ } else { d@.subrange(0, dot) }) by {
        assert(d@.subrange(0, d@.len() as int) =~= d@);
    }
    assert(frac@ == if dot < 0 { Seq::<char>::empty() } else { d@.subrange(dot + 1, d@.len() as int) }) by {
        assert(frac@.len() == 0 ==> frac@ =~= Seq::<char>::empty());
    }
    if whole.len() == 0 && frac.len() == 0 {
        return 0;
    }
    let w = match digits_capped(&whole) {
        Some(w) => w,
        None => {
            return 0;
        },
    };
    if digits_capped(&frac).is_none() {
        return 0;
    }
    let m = fraction_digit_at(&frac, 0) * 100 + fraction_digit_at(&frac, 1) * 10 + fraction_digit_at(&frac, 2);
    scaled_seconds(w, m, Ghost(digits_value(whole@)))
}

/// The time that one word of the report gives, in milliseconds: `<n>ms`,
/// `<decimal>s` or `<n>min`, capped at the largest `u32`. Any other word,
/// such as one in hours, counts as 0, as does a number that cannot be read.
pub open spec fn time_in_ms(t: Seq<char>) -> nat {
    let n = t.len();
    if n >= 2 && t[n - 2] == 'm' && t[n - 1] == 's' {
        match u32_of(t.subrange(0, n - 2)) {
            Some(v) => v,
            None => 0,
        }
    } else if n >= 1 && t[n - 1] == 's' {
        seconds_in_ms(t.subrange(0, n - 1))
    } else if n >= 3 && t[n - 3] == 'm' && t[n - 2] == 'i' && t[n - 1] == 'n' {
        match u32_of(t.subrange(0, n - 3)) {
            Some(v) => saturate(v * 60000),
            None => 0,
        }
    } else {
        0
    }
}

fn time_of(t: &Vec<char>) -> (r: u64)
    ensures
        r as nat == time_in_ms(t@),
        r <= 0xffff_ffff,
{
    let n = t.len();
    if n >= 2 && t[n - 2] == 'm' && t[n - 1] == 's' {
        match u32_from(&copy_range(t, 0, n - 2)) {
            Some(v) => v,
            None => 0,
        }
    } else if n >= 1 && t[n - 1] == 's' {
        seconds_from(&copy_range(t, 0, n - 1))
    } else if n >= 3 && t[n - 3] == 'm' && t[n - 2] == 'i' && t[n - 1] == 'n' {
        match u32_from(&copy_range(t, 0, n - 3)) {
            Some(v) => {
                let total = v * 60000;
                if total > 0xffff_ffff {
                    0xffff_ffff
                } else {
                    total
                }
            },
            None => 0,
        }
    } else {
        0
    }
}

/// The time that one word of the report gives, in milliseconds.
pub fn parse_time(input: &str) -> (r: u32)
    ensures
        r as nat == time_in_ms(input@),
{
    time_of(&chars_of(input)) as u32
}

/// One line of the report: a unit and the time it took to start, in
/// milliseconds.
#[derive(Clone, Debug, PartialEq)]
pub struct Analyze {
    pub time: u32,
    pub service: String,
}

/// The words that the spans `(start, end)` mark out of `s`.
pub open spec fn spans_view(spans: Seq<(usize, usize)>, s: Seq<char>) -> Seq<Seq<char>> {
    spans.map_values(|p: (usize, usize)| s.subrange(p.0 as int, p.1 as int))
}

/// Finds where the words of `s` start and end.
fn word_spans(s: &Vec<char>) -> (r: Vec<(usize, usize)>)
    ensures
        spans_view(r@, s@) == words(s@),
        forall|k: int| 0 <= k < r.len() ==> (#[trigger] r@[k]).0 < r@[k].1 <= s.len(),
{
    let mut spans: Vec<(usize, usize)> = Vec::new();
    let mut i: usize = 0;
    assert(spans_view(spans@, s@) =~= words(s@.subrange(0, 0)));
    while i < s.len()
        invariant
            i <= s.len(),
            forall|k: int| 0 <= k < spans.len() ==> (#[trigger] spans@[k]).0 < spans@[k].1 <= i,
            spans_view(spans@, s@) == words(s@.subrange(0, i as int)),
            i > 0 && !is_space(s@[i - 1]) ==> spans.len() > 0 && spans@.last().1 == i,
        decreases s.len() - i,
    {
        let ghost prev = s@.subrange(0, i as int);
        let ghost next = s@.subrange(0, i as int + 1);
        assert(next.drop_last() =~= prev);
        assert(next.last() == s@[i as int]);
        let ghost old_spans = spans@;
        if space(s[i]) {
        } else if i >= 1 && !space(s[i - 1]) {
            assert(next[next.len() - 2] == s@[i - 1]);
            let (a, _) = spans.pop().unwrap();
            spans.push((a, i + 1));
            proof {
                let w = words(prev);
                assert(w.len() == old_spans.len());
                assert(s@.subrange(a as int, i + 1) =~= w.last().push(s@[i as int]));
                assert(spans_view(spans@, s@) =~= w.update(w.len() - 1, w.last().push(s@[i as int])));
            }
        } else {
            spans.push((i, i + 1));
            proof {
                if i >= 1 {
                    assert(next[next.len() - 2] == s@[i - 1]);
                }
                assert(s@.subrange(i as int, i + 1) =~= seq![s@[i as int]]);
                assert(spans_view(spans@, s@) =~= words(prev).push(seq![s@[i as int]]));
            }
        }
        i = i + 1;
    }
    assert(s@.subrange(0, s.len() as int) =~= s@);
    spans
}

/// The time that a sequence of words gives, added up word by word and
/// capped at the largest `u32`.
pub open spec fn total_ms(ws: Seq<Seq<char>>) -> nat
    decreases ws.len(),
{
    if ws.len() == 0 {
        0
    } else {
        saturate(total_ms(ws.drop_last()) + time_in_ms(ws.last()))
    }
}

/// Reads one line of the report: its last word names the unit, and the
/// words before it give the time (`3min 38.514s` is 218514 ms).
pub fn parse_analyze(x: &str) -> (r: Analyze)
    requires
        words(x@).len() > 0,
    ensures
        r.service@ == words(x@).last(),
        r.time as nat == total_ms(words(x@).drop_last()),
{
    let s = chars_of(x);
    let spans = word_spans(&s);
    let ghost ws = words(x@);
    let last = spans.len() - 1;
    let mut time: u64 = 0;
    let mut k: usize = 0;
    assert(ws.drop_last().take(0) =~= Seq::<Seq<char>>::empty());
    while k < last
        invariant
            s@ == x@,
            spans_view(spans@, s@) == ws,
            forall|j: int| 0 <= j < spans.len() ==> (#[trigger] spans@[j]).0 < spans@[j].1 <= s.len(),
            last == spans.len() - 1,
            k <= last,
            time as nat == total_ms(ws.drop_last().take(k as int)),
            time <= 0xffff_ffff,
        decreases last - k,
    {
        let (a, b) = spans[k];
        let word = copy_range(&s, a, b);
        assert(word@ == ws[k as int]);
        let t = time_of(&word);
        time = time + t;
        if time > 0xffff_ffff {
            time = 0xffff_ffff;
        }
        proof {
            let taken = ws.drop_last().take(k as int + 1);
            assert(taken.drop_last() =~= ws.drop_last().take(k as int));
            assert(taken.last() == ws[k as int]);
        }
        k = k + 1;
    }
    assert(ws.drop_last().take(last as int) =~= ws.drop_last());
    let (a, b) = spans[last];
    let service = String::from_str(x.substring_char(a, b));
    assert(service@ == ws[last as int]);
    Analyze { time: time as u32, service }
}

/// The lines of `s`: the runs of characters between line feeds, in order,
/// empty ones included.
pub open spec fn segments(s: Seq<char>) -> Seq<Seq<char>>
    decreases s.len(),
{
    if s.len() == 0 {
        seq![Seq::empty()]
    } else {
        let w = segments(s.drop_last());
        if s.last() == '\n' {
            w.push(Seq::empty())
        } else {
            w.update(w.len() - 1, w.last().push(s.last()))
        }
    }
}

/// Finds where the lines of `s` start and end.
fn segment_spans(s: &Vec<char>) -> (r: Vec<(usize, usize)>)
    ensures
        spans_view(r@, s@) == segments(s@),
        forall|k: int| 0 <= k < r.len() ==> (#[trigger] r@[k]).0 <= r@[k].1 <= s.len(),
{
    let mut spans: Vec<(usize, usize)> = Vec::new();
    let mut start: usize = 0;
    let mut i: usize = 0;
    assert(s@.subrange(0, 0) =~= Seq::<char>::empty());
    assert(spans_view(spans@.push((start, i)), s@) =~= seq![Seq::<char>::empty()]);
    while i < s.len()
        invariant
            start <= i <= s.len(),
            forall|k: int| 0 <= k < spans.len() ==> (#[trigger] spans@[k]).0 <= spans@[k].1 <= i,
            spans_view(spans@.push((start, i)), s@) == segments(s@.subrange(0, i as int)),
        decreases s.len() - i,
    {
        let ghost prev = s@.subrange(0, i as int);
        let ghost next = s@.subrange(0, i as int + 1);
        assert(next.drop_last() =~= prev);
        assert(next.last() == s@[i as int]);
        let ghost w = segments(prev);
        if s[i] == '\n' {
            spans.push((start, i));
            start = i + 1;
            assert(s@.subrange(start as int, i as int + 1) =~= Seq::<char>::empty());
            assert(spans_view(spans@.push((start, (i + 1) as usize)), s@) =~= w.push(Seq::empty()));
        } else {
            assert(w.len() == spans.len() + 1);
            assert(s@.subrange(start as int, i + 1) =~= w.last().push(s@[i as int]));
            assert(spans_view(spans@.push((start, (i + 1) as usize)), s@) =~= w.update(
                w.len() - 1,
                w.last().push(s@[i as int]),
            ));
        }
        i = i + 1;
    }
    assert(s@.subrange(0, s.len() as int) =~= s@);
    spans.push((start, i));
    spans
}

/// A report line as mathematical values: its time and its unit.
pub open spec fn line_view(l: Seq<char>) -> (nat, Seq<char>) {
    (total_ms(words(l).drop_last()), words(l).last())
}

/// A parsed line as mathematical values.
pub open spec fn analyze_view(a: Analyze) -> (nat, Seq<char>) {
    (a.time as nat, a.service@)
}

/// The entries that the lines `ls` give, last line first; lines without a
/// word give none.
pub open spec fn blame_of(ls: Seq<Seq<char>>) -> Seq<(nat, Seq<char>)>
    decreases ls.len(),
{
    if ls.len() == 0 {
        Seq::empty()
    } else if words(ls.last()).len() > 0 {
        seq![line_view(ls.last())] + blame_of(ls.drop_last())
    } else {
        blame_of(ls.drop_last())
    }
}

/// Reads the whole report of `systemd-analyze blame`, one entry per line
/// that holds a word, in the reverse of the report's order: the report lists
/// the slowest unit first, the result lists it last.
pub fn parse_blame(report: &str) -> (r: Vec<Analyze>)
    ensures
        r@.map_values(|a: Analyze| analyze_view(a)) == blame_of(segments(report@)),
{
    let s = chars_of(report);
    let spans = segment_spans(&s);
    let ghost ls = segments(report@);
    let mut out: Vec<Analyze> = Vec::new();
    let mut k: usize = 0;
    assert(out@.map_values(|a: Analyze| analyze_view(a)) =~= blame_of(ls.take(0)));
    while k < spans.len()
        invariant
            s@ == report@,
            spans_view(spans@, s@) == ls,
            forall|j: int| 0 <= j < spans.len() ==> (#[trigger] spans@[j]).0 <= spans@[j].1 <= s.len(),
            k <= spans.len(),
            out@.map_values(|a: Analyze| analyze_view(a)) == blame_of(ls.take(k as int)),
        decreases spans.len() - k,
    {
        let (a, b) = spans[k];
        let ghost taken = ls.take(k as int + 1);
        assert(taken.drop_last() =~= ls.take(k as int));
        assert(taken.last() == ls[k as int]);
        let line = report.substring_char(a, b);
        assert(line@ == ls[k as int]);
        let ghost before = out@;
        if word_spans(&copy_range(&s, a, b)).len() > 0 {
            let entry = parse_analyze(line);
            out.insert(0, entry);
            assert(out@.map_values(|a: Analyze| analyze_view(a)) =~= seq![line_view(line@)]
                + before.map_values(|a: Analyze| analyze_view(a)));
        }
        k = k + 1;
    }
    assert(ls.take(spans.len() as int) =~= ls);
    out
}

} // verus!
