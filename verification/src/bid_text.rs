//! Reading a bet typed by the player: a line holding a decimal `u32`, read as
//! `str::trim` then `str::parse::<u32>` read it.
use vstd::prelude::*;
use vstd::string::StrSliceExecFns;

verus! {

/// Characters with the Unicode `White_Space` property, which `char::is_whitespace`
/// and hence `str::trim` recognise.
pub open spec fn is_white_space(c: char) -> bool {
    ('\u{9}' <= c && c <= '\u{D}') || c == ' ' || c == '\u{85}' || c == '\u{A0}' || c == '\u{1680}'
        || ('\u{2000}' <= c && c <= '\u{200A}') || c == '\u{2028}' || c == '\u{2029}' || c
        == '\u{202F}' || c == '\u{205F}' || c == '\u{3000}'
}

/// The text without its leading white space.
pub open spec fn trim_start(s: Seq<char>) -> Seq<char>
    decreases s.len(),
{
    if s.len() > 0 && is_white_space(s[0]) {
        trim_start(s.drop_first())
    } else {
        s
    }
}

/// The text without its trailing white space.
pub open spec fn trim_end(s: Seq<char>) -> Seq<char>
    decreases s.len(),
{
    if s.len() > 0 && is_white_space(s.last()) {
        trim_end(s.drop_last())
    } else {
        s
    }
}

/// The text without leading and trailing white space.
pub open spec fn trim(s: Seq<char>) -> Seq<char> {
    trim_end(trim_start(s))
}

/// An ASCII decimal digit.
pub open spec fn is_digit(c: char) -> bool {
    '0' <= c && c <= '9'
}

/// The value of a string of decimal digits.
pub open spec fn decimal_value(d: Seq<char>) -> nat
    decreases d.len(),
{
    if d.len() == 0 {
        0
    } else {
        10 * decimal_value(d.drop_last()) + ((d.last() as nat) - ('0' as nat)) as nat
    }
}

/// The value of one or more decimal digits that fits in a `u32`.
pub open spec fn parse_digits(d: Seq<char>) -> Option<u32> {
    if d.len() > 0 && (forall|i: int| 0 <= i < d.len() ==> is_digit(#[trigger] d[i]))
        && decimal_value(d) <= u32::MAX {
        Some(decimal_value(d) as u32)
    } else {
        None
    }
}

/// What `str::parse::<u32>` gives: an optional `+`, then one or more decimal
/// digits whose value fits in a `u32`.
pub open spec fn parse_u32(s: Seq<char>) -> Option<u32> {
    if s.len() > 0 && s[0] == '+' {
        parse_digits(s.drop_first())
    } else {
        parse_digits(s)
    }
}

/// What reading a typed bet gives.
pub open spec fn spec_parse_bid(line: Seq<char>) -> Option<u32> {
    parse_u32(trim(line))
}

proof fn lemma_trim_start_skip(s: Seq<char>, lo: int)
    requires
        0 <= lo <= s.len(),
        forall|j: int| 0 <= j < lo ==> is_white_space(#[trigger] s[j]),
        lo == s.len() || !is_white_space(s[lo]),
    ensures
        trim_start(s) == s.skip(lo),
    decreases lo,
{
    if lo == 0 {
        assert(s.skip(0) =~= s);
    } else {
        let r = s.drop_first();
        assert forall|j: int| 0 <= j < lo - 1 implies is_white_space(#[trigger] r[j]) by {
            assert(r[j] == s[j + 1]);
        }
        lemma_trim_start_skip(r, lo - 1);
        assert(r.skip(lo - 1) =~= s.skip(lo));
    }
}

proof fn lemma_trim_end_take(t: Seq<char>, hi: int)
    requires
        0 <= hi <= t.len(),
        forall|j: int| hi <= j < t.len() ==> is_white_space(#[trigger] t[j]),
        hi == 0 || !is_white_space(t[hi - 1]),
    ensures
        trim_end(t) == t.take(hi),
    decreases t.len() - hi,
{
    if hi == t.len() {
        assert(t.take(hi) =~= t);
    } else {
        let r = t.drop_last();
        assert forall|j: int| hi <= j < r.len() implies is_white_space(#[trigger] r[j]) by {
            assert(r[j] == t[j]);
        }
        assert(is_white_space(t[t.len() - 1]));
        lemma_trim_end_take(r, hi);
        assert(r.take(hi) =~= t.take(hi));
    }
}

proof fn lemma_decimal_prefix_le(d: Seq<char>, i: int)
    requires
        0 <= i <= d.len(),
    ensures
        decimal_value(d.take(i)) <= decimal_value(d),
    decreases d.len() - i,
{
    if i < d.len() {
        let p = d.drop_last();
        lemma_decimal_prefix_le(p, i);
        assert(p.take(i) =~= d.take(i));
    } else {
        assert(d.take(i) =~= d);
    }
}

/// Whether a character is white space (`char::is_whitespace`).
fn char_is_white_space(c: char) -> (r: bool)
    ensures
        r == is_white_space(c),
{
    ('\u{9}' <= c && c <= '\u{D}') || c == ' ' || c == '\u{85}' || c == '\u{A0}' || c == '\u{1680}'
        || ('\u{2000}' <= c && c <= '\u{200A}') || c == '\u{2028}' || c == '\u{2029}' || c
        == '\u{202F}' || c == '\u{205F}' || c == '\u{3000}'
}

/// Characters that trimming removes at either end include space, tab, line
/// feed and carriage return.
pub open spec fn is_line_space(c: char) -> bool {
    c == ' ' || c == '\t' || c == '\n' || c == '\r'
}

proof fn lemma_trim_start_prefix(w: Seq<char>, r: Seq<char>)
    requires
        forall|i: int| 0 <= i < w.len() ==> is_line_space(#[trigger] w[i]),
        r.len() > 0,
        '0' <= r[0] <= '9' || r[0] == '+',
    ensures
        trim_start(w + r) == r,
    decreases w.len(),
{
    if w.len() == 0 {
        assert(w + r =~= r);
    } else {
        let w2 = w.drop_first();
        assert forall|i: int| 0 <= i < w2.len() implies is_line_space(#[trigger] w2[i]) by {
            assert(w2[i] == w[i + 1]);
        }
        lemma_trim_start_prefix(w2, r);
        assert((w + r).drop_first() =~= w2 + r);
        assert((w + r)[0] == w[0]);
    }
}

proof fn lemma_trim_end_suffix(r: Seq<char>, w: Seq<char>)
    requires
        forall|i: int| 0 <= i < w.len() ==> is_line_space(#[trigger] w[i]),
        r.len() > 0,
        '0' <= r.last() <= '9',
    ensures
        trim_end(r + w) == r,
    decreases w.len(),
{
    if w.len() == 0 {
        assert(r + w =~= r);
    } else {
        let w2 = w.drop_last();
        assert forall|i: int| 0 <= i < w2.len() implies is_line_space(#[trigger] w2[i]) by {
            assert(w2[i] == w[i]);
        }
        lemma_trim_end_suffix(r, w2);
        assert((r + w).drop_last() =~= r + w2);
        assert((r + w).last() == w[w.len() - 1]);
    }
}

/// A line holding decimal digits, with an optional `+` before them and spaces,
/// tabs or line breaks around them, reads as the value of the digits whenever that
/// value fits in a `u32`, and reads as nothing when it does not.
pub proof fn lemma_parse_bid_digits(pre: Seq<char>, plus: bool, d: Seq<char>, post: Seq<char>)
    requires
        forall|i: int| 0 <= i < pre.len() ==> is_line_space(#[trigger] pre[i]),
        forall|i: int| 0 <= i < post.len() ==> is_line_space(#[trigger] post[i]),
        d.len() > 0,
        forall|i: int| 0 <= i < d.len() ==> '0' <= #[trigger] d[i] <= '9',
    ensures
        ({
            let line = pre + (if plus {
                seq!['+'] + d
            } else {
                d
            }) + post;
            &&& decimal_value(d) <= u32::MAX ==> spec_parse_bid(line) == Some(
                decimal_value(d) as u32,
            )
            &&& decimal_value(d) > u32::MAX ==> spec_parse_bid(line) is None
        }),
{
    let body = if plus {
        seq!['+'] + d
    } else {
        d
    };
    assert(body.len() > 0);
    assert(body.last() == d.last());
    assert('0' <= d[d.len() - 1] <= '9');
    lemma_trim_end_suffix(body, post);
    assert(pre + body + post =~= pre + (body + post));
    assert((body + post)[0] == body[0]);
    assert(plus ==> body[0] == '+');
    assert(!plus ==> body[0] == d[0]);
    assert('0' <= d[0] <= '9');
    lemma_trim_start_prefix(pre, body + post);
    assert(trim(pre + body + post) == body);
    if plus {
        assert(body.drop_first() =~= d);
    } else {
        assert(body[0] != '+');
    }
    assert forall|i: int| 0 <= i < d.len() implies is_digit(#[trigger] d[i]) by {
        assert('0' <= d[i] <= '9');
    }
}

/// Reads a typed bet: the line, trimmed, as a `u32`; `None` where it is no such number.
pub fn parse_bid(line: &str) -> (r: Option<u32>)
    ensures
        r == spec_parse_bid(line@),
{
    let n = line.unicode_len();
    let ghost s = line@;
    let mut lo: usize = 0;
    while lo < n && char_is_white_space(line.get_char(lo))
        invariant
            0 <= lo <= n,
            n == s.len(),
            s == line@,
            forall|j: int| 0 <= j < lo ==> is_white_space(#[trigger] s[j]),
        decreases n - lo,
    {
        lo = lo + 1;
    }
    proof {
        lemma_trim_start_skip(s, lo as int);
    }
    let ghost t = s.skip(lo as int);
    let mut hi: usize = n;
    while hi > lo && char_is_white_space(line.get_char(hi - 1))
        invariant
            lo <= hi <= n,
            n == s.len(),
            s == line@,
            t == s.skip(lo as int),
            forall|j: int| hi <= j < n ==> is_white_space(#[trigger] s[j]),
        decreases hi - lo,
    {
        hi = hi - 1;
    }
    proof {
        assert forall|j: int| hi - lo <= j < t.len() implies is_white_space(#[trigger] t[j]) by {
            assert(t[j] == s[j + lo]);
        }
        if hi > lo {
            assert(t[hi - lo - 1] == s[hi - 1]);
        }
        lemma_trim_end_take(t, hi - lo);
        assert(t.take(hi - lo) =~= s.subrange(lo as int, hi as int));
    }
    let ghost w = s.subrange(lo as int, hi as int);
    assert(trim(s) == w);
    let mut start = lo;
    if lo < hi && line.get_char(lo) == '+' {
        start = lo + 1;
    }
    let ghost d = s.subrange(start as int, hi as int);
    proof {
        if lo < hi && s[lo as int] == '+' {
            assert(w.drop_first() =~= d);
        } else {
            assert(w =~= d);
        }
    }
    if start >= hi {
        return None;
    }
    let mut value: u32 = 0;
    let mut i: usize = start;
    while i < hi
        invariant
            start <= i <= hi <= n,
            n == s.len(),
            s == line@,
            d == s.subrange(start as int, hi as int),
            spec_parse_bid(line@) == parse_digits(d),
            forall|j: int| 0 <= j < i - start ==> is_digit(#[trigger] d[j]),
            value == decimal_value(d.take(i - start)),
        decreases hi - i,
    {
        let c = line.get_char(i);
        if !('0' <= c && c <= '9') {
            proof {
                assert(d[i - start] == c);
            }
            return None;
        }
        let digit: u32 = (c as u32) - ('0' as u32);
        proof {
            assert(d.take(i - start + 1).drop_last() =~= d.take(i - start));
            assert(d.take(i - start + 1).last() == c);
        }
        if value > 429496729 || (value == 429496729 && digit > 5) {
            proof {
                lemma_decimal_prefix_le(d, i - start + 1);
            }
            return None;
        }
        value = value * 10 + digit;
        i = i + 1;
    }
    proof {
        assert(d.take(hi - start) =~= d);
    }
    Some(value)
}

} // verus!
