//! Helpers on text: views of collections, searching and splitting a text,
//! and writing a number in decimal.

use vstd::prelude::*;
use vstd::string::StringExecFns;
use vstd::string::StrSliceExecFns;

verus! {

/// The views of the items of `s`, in order.
pub open spec fn views<T: View>(s: Seq<T>) -> Seq<T::V> {
    Seq::new(s.len(), |i: int| s[i]@)
}

/// The view of what `o` holds, if it holds anything.
pub open spec fn view_of<T: View>(o: Option<T>) -> Option<T::V> {
    match o {
        Some(t) => Some(t@),
        None => None,
    }
}

/// A stretch of a text: the characters from `start` up to, not including,
/// `end`, both counted in characters from the beginning of the text.
#[derive(Clone, Copy, Debug, PartialEq, Eq, Structural)]
pub struct Span {
    pub start: usize,
    pub end: usize,
}

impl Span {
    /// The characters of `s` that the span covers.
    pub open spec fn of(self, s: Seq<char>) -> Seq<char> {
        s.subrange(self.start as int, self.end as int)
    }

    /// Whether the span lies within a text of `len` characters.
    pub open spec fn within(self, len: nat) -> bool {
        self.start <= self.end <= len
    }
}

/// The first position from `from` on, and before `end`, at which `s` holds
/// `c`; `end` where there is none.
pub open spec fn find(s: Seq<char>, c: char, from: int, end: int) -> int
    decreases end - from,
{
    if from >= end {
        end
    } else if s[from] == c {
        from
    } else {
        find(s, c, from + 1, end)
    }
}

/// `find` stays in range, stops at an occurrence, and passes none.
pub proof fn lemma_find(s: Seq<char>, c: char, from: int, end: int)
    requires
        0 <= from <= end <= s.len(),
    ensures
        from <= find(s, c, from, end) <= end,
        find(s, c, from, end) < end ==> s[find(s, c, from, end)] == c,
        forall|i: int| from <= i < find(s, c, from, end) ==> s[i] != c,
    decreases end - from,
{
    if from < end && s[from] != c {
        lemma_find(s, c, from + 1, end);
    }
}

/// The stretches between the occurrences of `sep` in `s`, from `from` up to
/// `end`: one more than there are occurrences, so at least one, which may be
/// empty.
pub open spec fn fields(s: Seq<char>, sep: char, from: int, end: int) -> Seq<Span>
    decreases end - from,
{
    let stop = find(s, sep, from, end);
    let first = Span { start: from as usize, end: stop as usize };
    if from <= stop < end {
        seq![first] + fields(s, sep, stop + 1, end)
    } else {
        seq![first]
    }
}

/// Every stretch that `fields` gives lies between `from` and `end`, each
/// begins one past the end of the one before it, the first begins at `from`,
/// the last ends at `end`, none holds `sep`, and `sep` stands at the end of
/// each but the last.
pub proof fn lemma_fields(s: Seq<char>, sep: char, from: int, end: int)
    requires
        0 <= from <= end <= s.len(),
        end <= usize::MAX,
    ensures
        fields(s, sep, from, end).len() >= 1,
        fields(s, sep, from, end)[0].start == from,
        fields(s, sep, from, end).last().end == end,
        forall|i: int|
            0 <= i < fields(s, sep, from, end).len() ==> from <= (#[trigger] fields(
                s,
                sep,
                from,
                end,
            )[i]).start <= fields(s, sep, from, end)[i].end <= end,
        forall|i: int|
            0 <= i < fields(s, sep, from, end).len() - 1 ==> (#[trigger] fields(
                s,
                sep,
                from,
                end,
            )[i]).end + 1 == fields(s, sep, from, end)[i + 1].start && s[fields(
                s,
                sep,
                from,
                end,
            )[i].end as int] == sep,
        forall|i: int, k: int|
            0 <= i < fields(s, sep, from, end).len() && (#[trigger] fields(
                s,
                sep,
                from,
                end,
            )[i]).start <= k < fields(s, sep, from, end)[i].end ==> #[trigger] s[k] != sep,
    decreases end - from,
{
    lemma_find(s, sep, from, end);
    let stop = find(s, sep, from, end);
    if stop < end {
        lemma_fields(s, sep, stop + 1, end);
        let rest = fields(s, sep, stop + 1, end);
        let all = fields(s, sep, from, end);
        assert(all.len() == rest.len() + 1);
        assert(forall|i: int| 1 <= i < all.len() ==> all[i] == rest[i - 1]);
        assert(all.last() == rest.last());
        assert forall|i: int| 0 <= i < all.len() - 1 implies (#[trigger] all[i]).end + 1
            == all[i + 1].start && s[all[i].end as int] == sep by {
            if i > 0 {
                assert(all[i] == rest[i - 1]);
                assert(all[i + 1] == rest[i]);
            } else {
                assert(all[1] == rest[0]);
            }
        }
        assert forall|i: int, k: int|
            0 <= i < all.len() && (#[trigger] all[i]).start <= k < all[i].end implies #[trigger] s[k]
            != sep by {
            if i > 0 {
                assert(all[i] == rest[i - 1]);
            }
        }
    }
}

/// `find` gives the position `stop` where `c` stands there, or `stop` is
/// `end`, and `c` stands nowhere before it.
pub proof fn lemma_find_is(s: Seq<char>, c: char, from: int, end: int, stop: int)
    requires
        0 <= from <= stop <= end <= s.len(),
        stop < end ==> s[stop] == c,
        forall|i: int| from <= i < stop ==> s[i] != c,
    ensures
        find(s, c, from, end) == stop,
    decreases stop - from,
{
    if from < stop {
        lemma_find_is(s, c, from + 1, end, stop);
    }
}

/// Whether `spans` cut the stretch of `s` from `from` up to `end` at each
/// `sep`: the first begins at `from`, the last ends at `end`, each begins
/// one past the end of the one before it, where `sep` stands, and none
/// holds `sep`.
pub open spec fn cuts(s: Seq<char>, sep: char, from: int, end: int, spans: Seq<Span>) -> bool {
    &&& spans.len() >= 1
    &&& spans[0].start == from
    &&& spans.last().end == end
    &&& forall|i: int| 0 <= i < spans.len() ==> (#[trigger] spans[i]).start <= spans[i].end
    &&& forall|i: int|
        0 <= i < spans.len() - 1 ==> (#[trigger] spans[i]).end + 1 == spans[i + 1].start
            && s[spans[i].end as int] == sep
    &&& forall|i: int, k: int|
        0 <= i < spans.len() && (#[trigger] spans[i]).start <= k < spans[i].end
            ==> #[trigger] s[k] != sep
}

/// There is one way to cut a stretch at each `sep`, and `fields` gives it.
pub proof fn lemma_fields_are(s: Seq<char>, sep: char, from: int, end: int, spans: Seq<Span>)
    requires
        0 <= from <= end <= s.len(),
        end <= usize::MAX,
        cuts(s, sep, from, end, spans),
    ensures
        fields(s, sep, from, end) == spans,
    decreases spans.len(),
{
    let first = spans[0];
    if spans.len() == 1 {
        lemma_find_is(s, sep, from, end, end);
        assert(fields(s, sep, from, end) =~= spans);
    } else {
        let rest = spans.skip(1);
        assert(forall|i: int| 0 <= i < rest.len() ==> rest[i] == spans[i + 1]);
        assert(first.end + 1 == spans[1].start);
        assert(rest.last() == spans.last());
        assert forall|i: int| 0 <= i < rest.len() implies (#[trigger] rest[i]).start
            <= rest[i].end by {
            assert(rest[i] == spans[i + 1]);
        }
        assert forall|i: int| 0 <= i < rest.len() - 1 implies (#[trigger] rest[i]).end + 1 == rest[i
            + 1].start && s[rest[i].end as int] == sep by {
            assert(rest[i] == spans[i + 1]);
            assert(rest[i + 1] == spans[i + 2]);
        }
        assert forall|i: int, k: int|
            0 <= i < rest.len() && (#[trigger] rest[i]).start <= k < rest[i].end implies #[trigger] s[k]
            != sep by {
            assert(rest[i] == spans[i + 1]);
        }
        assert(first.end < end) by {
            lemma_cuts_bounds(s, sep, from, end, spans, 1);
        }
        lemma_find_is(s, sep, from, end, first.end as int);
        lemma_fields_are(s, sep, first.end + 1, end, rest);
        assert(fields(s, sep, from, end) =~= spans);
    }
}

/// The stretches of a cut begin in order: the `i`-th begins at or after
/// `from`, and ends at or before `end`.
proof fn lemma_cuts_bounds(
    s: Seq<char>,
    sep: char,
    from: int,
    end: int,
    spans: Seq<Span>,
    i: int,
)
    requires
        cuts(s, sep, from, end, spans),
        0 <= i < spans.len(),
    ensures
        from <= spans[i].start <= spans[i].end <= end,
        i > 0 ==> spans[i - 1].end < spans[i].start,
{
    lemma_cuts_up(s, sep, from, end, spans, i);
    lemma_cuts_down(s, sep, from, end, spans, i);
}

/// The `i`-th stretch of a cut begins at or after `from`.
proof fn lemma_cuts_up(s: Seq<char>, sep: char, from: int, end: int, spans: Seq<Span>, i: int)
    requires
        cuts(s, sep, from, end, spans),
        0 <= i < spans.len(),
    ensures
        from <= spans[i].start,
    decreases i,
{
    if i > 0 {
        lemma_cuts_up(s, sep, from, end, spans, i - 1);
        assert(spans[i - 1].end + 1 == spans[i].start);
    }
}

/// The `i`-th stretch of a cut ends at or before `end`.
proof fn lemma_cuts_down(s: Seq<char>, sep: char, from: int, end: int, spans: Seq<Span>, i: int)
    requires
        cuts(s, sep, from, end, spans),
        0 <= i < spans.len(),
    ensures
        spans[i].end <= end,
    decreases spans.len() - i,
{
    if i < spans.len() - 1 {
        lemma_cuts_down(s, sep, from, end, spans, i + 1);
        assert(spans[i].end + 1 == spans[i + 1].start);
    }
}

/// The position in `chars` of the first `c` from `from` on and before `end`,
/// or `end`.
pub fn find_char(chars: &Vec<char>, c: char, from: usize, end: usize) -> (stop: usize)
    requires
        from <= end <= chars@.len(),
    ensures
        stop == find(chars@, c, from as int, end as int),
        from <= stop <= end,
{
    let mut i: usize = from;
    while i < end && chars[i] != c
        invariant
            from <= i <= end <= chars@.len(),
            find(chars@, c, from as int, end as int) == find(chars@, c, i as int, end as int),
        decreases end - i,
    {
        i += 1;
    }
    i
}

/// Splits the stretch of `chars` from `from` up to `end` at each `sep`.
pub fn split_fields(chars: &Vec<char>, sep: char, from: usize, end: usize) -> (spans: Vec<Span>)
    requires
        from <= end <= chars@.len(),
    ensures
        spans@ == fields(chars@, sep, from as int, end as int),
{
    let mut spans: Vec<Span> = Vec::new();
    let mut start: usize = from;
    loop
        invariant
            from <= start <= end <= chars@.len(),
            fields(chars@, sep, from as int, end as int) == spans@ + fields(
                chars@,
                sep,
                start as int,
                end as int,
            ),
        decreases end - start,
    {
        let stop: usize = find_char(chars, sep, start, end);
        spans.push(Span { start, end: stop });
        if stop >= end {
            return spans;
        }
        start = stop + 1;
    }
}

/// The stretch `span` of `text`, as a text of its own.
pub fn slice(text: &str, span: Span) -> (r: String)
    requires
        span.within(text@.len()),
    ensures
        r@ == span.of(text@),
{
    String::from_str(text.substring_char(span.start, span.end))
}

/// The characters of `text`, in order.
pub fn chars_of(text: &str) -> (chars: Vec<char>)
    ensures
        chars@ == text@,
{
    let mut chars: Vec<char> = Vec::new();
    for c in it: text.chars()
        invariant
            chars@ == it.seq().take(it.index() as int),
            it.seq() == text@,
    {
        chars.push(c);
    }
    chars
}

/// The digit that stands for `d`, a number below 10.
pub open spec fn digit(d: nat) -> char {
    if d == 0 {
        '0'
    } else if d == 1 {
        '1'
    } else if d == 2 {
        '2'
    } else if d == 3 {
        '3'
    } else if d == 4 {
        '4'
    } else if d == 5 {
        '5'
    } else if d == 6 {
        '6'
    } else if d == 7 {
        '7'
    } else if d == 8 {
        '8'
    } else {
        '9'
    }
}

/// `n` written in decimal, without leading zeros.
pub open spec fn decimal(n: nat) -> Seq<char>
    decreases n,
{
    if n < 10 {
        seq![digit(n)]
    } else {
        decimal(n / 10).push(digit(n % 10))
    }
}

/// The digit of `d` as a text.
fn digit_text(d: usize) -> (r: &'static str)
    requires
        d < 10,
    ensures
        r@ == seq![digit(d as nat)],
{
    proof {
        reveal_strlit("0");
        reveal_strlit("1");
        reveal_strlit("2");
        reveal_strlit("3");
        reveal_strlit("4");
        reveal_strlit("5");
        reveal_strlit("6");
        reveal_strlit("7");
        reveal_strlit("8");
        reveal_strlit("9");
    }
    let r = if d == 0 {
        "0"
    } else if d == 1 {
        "1"
    } else if d == 2 {
        "2"
    } else if d == 3 {
        "3"
    } else if d == 4 {
        "4"
    } else if d == 5 {
        "5"
    } else if d == 6 {
        "6"
    } else if d == 7 {
        "7"
    } else if d == 8 {
        "8"
    } else {
        "9"
    };
    assert(r@ =~= seq![digit(d as nat)]);
    r
}

/// Writes `n` in decimal.
pub fn decimal_string(n: usize) -> (r: String)
    ensures
        r@ == decimal(n as nat),
    decreases n,
{
    if n < 10 {
        String::from_str(digit_text(n))
    } else {
        let mut r: String = decimal_string(n / 10);
        r.append(digit_text(n % 10));
        assert(r@ =~= decimal(n as nat));
        r
    }
}

/// The number that the digits `s` write in decimal.
pub open spec fn decimal_value(s: Seq<char>) -> nat
    decreases s.len(),
{
    if s.len() == 0 {
        0
    } else {
        decimal_value(s.drop_last()) * 10 + (s.last() as nat - '0' as nat) as nat
    }
}

/// Reading what `decimal` wrote gives the number back, so no two numbers are
/// written alike.
pub proof fn decimal_is_injective(a: nat, b: nat)
    ensures
        decimal_value(decimal(a)) == a,
        decimal(a) == decimal(b) ==> a == b,
{
    lemma_decimal_value(a);
    lemma_decimal_value(b);
}

/// Reading what `decimal` wrote gives the number back.
proof fn lemma_decimal_value(n: nat)
    ensures
        decimal_value(decimal(n)) == n,
    decreases n,
{
    if n < 10 {
        assert(decimal(n).drop_last() =~= Seq::<char>::empty());
        assert(decimal_value(decimal(n).drop_last()) == 0);
        assert(decimal(n).last() == digit(n));
    } else {
        lemma_decimal_value(n / 10);
        assert(decimal(n).drop_last() =~= decimal(n / 10));
        assert(decimal(n).last() == digit(n % 10));
    }
}

} // verus!
