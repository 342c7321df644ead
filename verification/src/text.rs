//! Character-level helpers on string slices.
//!
//! Every contract here is stated over the view of a string, its sequence of
//! characters, so that callers can reason about paths and templates without
//! looking at bytes.

use vstd::prelude::*;
use vstd::std_specs::iter::IteratorSpec;
use vstd::string::StringExecFns;

verus! {

/// `p` is the beginning of `s`.
pub open spec fn has_prefix(s: Seq<char>, p: Seq<char>) -> bool {
    p.len() <= s.len() && s.subrange(0, p.len() as int) == p
}

/// `p` is the end of `s`.
pub open spec fn has_suffix(s: Seq<char>, p: Seq<char>) -> bool {
    p.len() <= s.len() && s.subrange(s.len() - p.len(), s.len() as int) == p
}

/// The index of the first `c` in `s`, or `s.len()` where `s` holds none.
pub open spec fn first_index_of(s: Seq<char>, c: char) -> int
    decreases s.len(),
{
    if s.len() == 0 {
        0
    } else if s[0] == c {
        0
    } else {
        1 + first_index_of(s.drop_first(), c)
    }
}

/// The pieces of `s` between the occurrences of `c`. There is always at
/// least one piece, and a piece may be empty.
pub open spec fn split_on(s: Seq<char>, c: char) -> Seq<Seq<char>>
    decreases s.len(),
{
    let i = first_index_of(s, c);
    if 0 <= i < s.len() {
        seq![s.take(i)] + split_on(s.skip(i + 1), c)
    } else {
        seq![s]
    }
}

/// The views of a sequence of strings.
pub open spec fn views(v: Seq<String>) -> Seq<Seq<char>> {
    v.map_values(|s: String| s@)
}

/// `first_index_of` is an index into `s` or its length; nothing before it
/// is `c`; and where it is an index, `c` stands there.
pub proof fn lemma_first_index_of(s: Seq<char>, c: char)
    ensures
        0 <= first_index_of(s, c) <= s.len(),
        forall|j: int| 0 <= j < first_index_of(s, c) ==> s[j] != c,
        first_index_of(s, c) < s.len() ==> s[first_index_of(s, c)] == c,
        first_index_of(s, c) == s.len() <==> !s.contains(c),
    decreases s.len(),
{
    if s.len() > 0 && s[0] != c {
        let rest = s.drop_first();
        lemma_first_index_of(rest, c);
        let k = first_index_of(rest, c);
        assert forall|j: int| 0 <= j < 1 + k implies s[j] != c by {
            if j > 0 {
                assert(s[j] == rest[j - 1]);
            }
        }
        if k < rest.len() {
            assert(s[1 + k] == rest[k]);
            assert(s.contains(c));
        } else {
            if s.contains(c) {
                let j = choose|j: int| 0 <= j < s.len() && s[j] == c;
                assert(rest[j - 1] == c);
                assert(rest.contains(c));
            }
        }
    } else if s.len() > 0 {
        assert(s.contains(c));
    }
}

/// Skipping `i` characters that are not `c` moves the first `c` by `i`.
proof fn lemma_first_index_skip(s: Seq<char>, c: char, i: int)
    requires
        0 <= i <= s.len(),
        forall|j: int| 0 <= j < i ==> s[j] != c,
    ensures
        first_index_of(s, c) == i + first_index_of(s.skip(i), c),
    decreases i,
{
    if i > 0 {
        assert(s.drop_first().skip(i - 1) =~= s.skip(i));
        assert forall|j: int| 0 <= j < i - 1 implies s.drop_first()[j] != c by {
            assert(s.drop_first()[j] == s[j + 1]);
        }
        lemma_first_index_skip(s.drop_first(), c, i - 1);
    } else {
        assert(s.skip(0) =~= s);
    }
}

/// The text without characters.
pub fn empty_text() -> (text: &'static str)
    ensures
        text@ == Seq::<char>::empty(),
{
    proof {
        reveal_strlit("");
    }
    let text = "";
    assert(text@ =~= Seq::<char>::empty());
    text
}

/// The characters of `s`, in order.
pub fn chars_of(s: &str) -> (out: Vec<char>)
    ensures
        out@ == s@,
{
    let mut out: Vec<char> = Vec::new();
    for c in it: s.chars()
        invariant
            it.seq() == s@,
            out@ == s@.take(it.index() as int),
    {
        out.push(c);
    }
    out
}

/// Whether `s` begins with `prefix`.
pub fn starts_with(s: &str, prefix: &str) -> (b: bool)
    ensures
        b == has_prefix(s@, prefix@),
{
    let sc = chars_of(s);
    let pc = chars_of(prefix);
    if pc.len() > sc.len() {
        return false;
    }
    let mut i: usize = 0;
    while i < pc.len()
        invariant
            i <= pc.len() <= sc.len(),
            sc@ == s@,
            pc@ == prefix@,
            forall|j: int| 0 <= j < i ==> sc@[j] == pc@[j],
        decreases pc.len() - i,
    {
        if sc[i] != pc[i] {
            assert(s@.subrange(0, prefix@.len() as int)[i as int] != prefix@[i as int]);
            return false;
        }
        i += 1;
    }
    assert(s@.subrange(0, prefix@.len() as int) =~= prefix@);
    true
}

/// Whether `s` ends with `suffix`.
pub fn ends_with(s: &str, suffix: &str) -> (b: bool)
    ensures
        b == has_suffix(s@, suffix@),
{
    let sc = chars_of(s);
    let pc = chars_of(suffix);
    if pc.len() > sc.len() {
        return false;
    }
    let off: usize = sc.len() - pc.len();
    let mut i: usize = 0;
    while i < pc.len()
        invariant
            i <= pc.len() <= sc.len(),
            off == sc.len() - pc.len(),
            sc@ == s@,
            pc@ == suffix@,
            forall|j: int| 0 <= j < i ==> sc@[off + j] == pc@[j],
        decreases pc.len() - i,
    {
        if sc[off + i] != pc[i] {
            assert(s@.subrange(s@.len() - suffix@.len(), s@.len() as int)[i as int]
                != suffix@[i as int]);
            return false;
        }
        i += 1;
    }
    assert(s@.subrange(s@.len() - suffix@.len(), s@.len() as int) =~= suffix@);
    true
}

/// Whether `c` occurs in `s`.
pub fn contains_char(s: &str, c: char) -> (b: bool)
    ensures
        b == s@.contains(c),
{
    let sc = chars_of(s);
    let i = index_of_char(&sc, 0, c);
    proof {
        lemma_first_index_of(s@, c);
        assert(s@.skip(0) =~= s@);
    }
    i < sc.len()
}

/// The index of the first `c` in `chars` at or after `from`, or the length
/// of `chars` where there is none.
pub fn index_of_char(chars: &Vec<char>, from: usize, c: char) -> (i: usize)
    requires
        from <= chars.len(),
    ensures
        i == from + first_index_of(chars@.skip(from as int), c),
        from <= i <= chars.len(),
{
    let mut i: usize = from;
    let ghost tail = chars@.skip(from as int);
    while i < chars.len() && chars[i] != c
        invariant
            from <= i <= chars.len(),
            tail == chars@.skip(from as int),
            forall|j: int| 0 <= j < i - from ==> tail[j] != c,
        decreases chars.len() - i,
    {
        i += 1;
    }
    proof {
        lemma_first_index_skip(tail, c, i - from);
        assert(tail.skip(i - from) =~= chars@.skip(i as int));
        if i < chars.len() {
            assert(chars@.skip(i as int)[0] == c);
        }
    }
    i
}

/// The pieces of `s` between the occurrences of `c`, as `str::split` with a
/// character gives them.
pub fn split_on_char(s: &str, c: char) -> (parts: Vec<String>)
    ensures
        views(parts@) == split_on(s@, c),
        parts@.len() >= 1,
{
    let sc = chars_of(s);
    let mut parts: Vec<String> = Vec::new();
    let mut start: usize = 0;
    proof {
        assert(s@.skip(0) =~= s@);
        assert(views(parts@) + split_on(s@, c) =~= split_on(s@, c));
    }
    loop
        invariant_except_break
            start <= sc.len(),
            sc@ == s@,
            views(parts@) + split_on(s@.skip(start as int), c) == split_on(s@, c),
        ensures
            views(parts@) == split_on(s@, c),
            parts@.len() >= 1,
        decreases sc.len() - start,
    {
        let i = index_of_char(&sc, start, c);
        let ghost tail = s@.skip(start as int);
        let ghost before = views(parts@);
        proof {
            lemma_first_index_of(tail, c);
        }
        if i < sc.len() {
            let piece = s.substring_char(start, i);
            parts.push(String::from_str(piece));
            proof {
                assert(tail.take(i - start) =~= s@.subrange(start as int, i as int));
                assert(tail.skip(i - start + 1) =~= s@.skip(i + 1));
                assert(views(parts@) =~= before.push(piece@));
                assert(before.push(piece@) + split_on(s@.skip(i + 1), c) =~= before + (seq![
                    piece@,
                ] + split_on(s@.skip(i + 1), c)));
            }
            start = i + 1;
        } else {
            let piece = s.substring_char(start, sc.len());
            parts.push(String::from_str(piece));
            proof {
                assert(tail =~= s@.subrange(start as int, sc.len() as int));
                assert(views(parts@) =~= before.push(piece@));
                assert(before.push(piece@) =~= before + seq![tail]);
            }
            break ;
        }
    }
    parts
}

/// Whether two string slices hold the same characters.
pub fn same_text(a: &str, b: &str) -> (same: bool)
    ensures
        same == (a@ == b@),
{
    let ac = chars_of(a);
    let bc = chars_of(b);
    if ac.len() != bc.len() {
        return false;
    }
    let mut i: usize = 0;
    while i < ac.len()
        invariant
            i <= ac.len(),
            ac.len() == bc.len(),
            ac@ == a@,
            bc@ == b@,
            forall|j: int| 0 <= j < i ==> ac@[j] == bc@[j],
        decreases ac.len() - i,
    {
        if ac[i] != bc[i] {
            return false;
        }
        i += 1;
    }
    assert(a@ =~= b@);
    true
}

/// The character that stands for the digit `d`.
pub open spec fn digit_char(d: int) -> char {
    if d == 0 {
        '0'
    } else if d == 1 {
        '1'
    } else if d == 2 {
        '2'
    } else if d == 3 {
        '3'
    } else if d == 4 {
        '4'
    } else if d == 5 {
        '5'
    } else if d == 6 {
        '6'
    } else if d == 7 {
        '7'
    } else if d == 8 {
        '8'
    } else {
        '9'
    }
}

/// The decimal digits of `n`, most significant first, without leading zeros.
pub open spec fn decimal(n: nat) -> Seq<char>
    decreases n,
{
    if n < 10 {
        seq![digit_char(n as int)]
    } else {
        decimal(n / 10).push(digit_char((n % 10) as int))
    }
}

/// The decimal form of an integer: a minus sign before the digits of a
/// negative one.
pub open spec fn signed_decimal(n: int) -> Seq<char> {
    if n < 0 {
        seq!['-'] + decimal((-n) as nat)
    } else {
        decimal(n as nat)
    }
}

fn digit_str(d: u64) -> (s: &'static str)
    requires
        d < 10,
    ensures
        s@ == seq![digit_char(d as int)],
{
    proof {
        reveal_strlit("0");
        reveal_strlit("1");
        reveal_strlit("2");
        reveal_strlit("3");
        reveal_strlit("4");
        reveal_strlit("5");
        reveal_strlit("6");
        reveal_strlit("7");
        reveal_strlit("8");
        reveal_strlit("9");
    }
    let s = if d == 0 {
        "0"
    } else if d == 1 {
        "1"
    } else if d == 2 {
        "2"
    } else if d == 3 {
        "3"
    } else if d == 4 {
        "4"
    } else if d == 5 {
        "5"
    } else if d == 6 {
        "6"
    } else if d == 7 {
        "7"
    } else if d == 8 {
        "8"
    } else {
        "9"
    };
    assert(s@ =~= seq![digit_char(d as int)]);
    s
}

/// `n` written in decimal.
pub fn decimal_string(n: u64) -> (s: String)
    ensures
        s@ == decimal(n as nat),
    decreases n,
{
    if n < 10 {
        String::from_str(digit_str(n))
    } else {
        let mut s = decimal_string(n / 10);
        s.append(digit_str(n % 10));
        assert(s@ =~= decimal((n / 10) as nat).push(digit_char((n % 10) as int)));
        s
    }
}

/// `n` written in decimal, with a minus sign where it is negative.
pub fn signed_decimal_string(n: i64) -> (s: String)
    ensures
        s@ == signed_decimal(n as int),
{
    if n < 0 {
        let magnitude: u64 = (-(n + 1)) as u64 + 1;
        proof {
            reveal_strlit("-");
        }
        let mut s = String::from_str("-");
        let digits = decimal_string(magnitude);
        s.append(digits.as_str());
        assert(s@ =~= seq!['-'] + decimal((-n) as nat));
        s
    } else {
        decimal_string(n as u64)
    }
}

/// `s` with every occurrence of `pattern` replaced by `replacement`,
/// found from left to right without overlap. An empty pattern replaces
/// nothing.
pub open spec fn replace_all(s: Seq<char>, pattern: Seq<char>, replacement: Seq<char>) -> Seq<
    char,
>
    decreases s.len(),
{
    if pattern.len() == 0 || s.len() < pattern.len() {
        s
    } else if s.take(pattern.len() as int) == pattern {
        replacement + replace_all(s.skip(pattern.len() as int), pattern, replacement)
    } else {
        seq![s[0]] + replace_all(s.skip(1), pattern, replacement)
    }
}

/// Whether `pattern` stands in `s` at index `i`.
pub open spec fn occurs_at(s: Seq<char>, pattern: Seq<char>, i: int) -> bool {
    0 <= i && i + pattern.len() <= s.len() && s.subrange(i, i + pattern.len()) == pattern
}

/// Whether `pattern` stands somewhere in `s`.
pub open spec fn occurs(s: Seq<char>, pattern: Seq<char>) -> bool {
    exists|i: int| occurs_at(s, pattern, i)
}

/// Whether no character of `a` is a character of `b`.
pub open spec fn no_common_char(a: Seq<char>, b: Seq<char>) -> bool {
    forall|i: int, j: int| 0 <= i < a.len() && 0 <= j < b.len() ==> a[i] != b[j]
}

/// The index at which `pattern` first stands in `s`, or the length of `s`
/// where it stands nowhere.
pub open spec fn first_occurrence(s: Seq<char>, pattern: Seq<char>) -> int
    decreases s.len(),
{
    if pattern.len() == 0 || s.len() < pattern.len() {
        s.len() as int
    } else if s.take(pattern.len() as int) == pattern {
        0
    } else {
        1 + first_occurrence(s.skip(1), pattern)
    }
}

/// `first_occurrence` is an index at which the pattern stands, with no
/// such index before it, or the length of the text, and then the pattern
/// stands nowhere.
pub proof fn lemma_first_occurrence(s: Seq<char>, pattern: Seq<char>)
    requires
        pattern.len() > 0,
    ensures
        0 <= first_occurrence(s, pattern) <= s.len(),
        forall|j: int| 0 <= j < first_occurrence(s, pattern) ==> !occurs_at(s, pattern, j),
        first_occurrence(s, pattern) < s.len() ==> occurs_at(
            s,
            pattern,
            first_occurrence(s, pattern),
        ),
        first_occurrence(s, pattern) == s.len() <==> !occurs(s, pattern),
    decreases s.len(),
{
    let n = pattern.len() as int;
    if s.len() < n {
        assert forall|j: int| !occurs_at(s, pattern, j) by {}
    } else if s.take(n) == pattern {
        assert(s.subrange(0, n) =~= s.take(n));
        assert(occurs_at(s, pattern, 0));
    } else {
        let rest = s.skip(1);
        lemma_first_occurrence(rest, pattern);
        let f = first_occurrence(rest, pattern);
        assert forall|j: int| 0 <= j < 1 + f implies !occurs_at(s, pattern, j) by {
            if j == 0 {
                assert(s.subrange(0, n) =~= s.take(n));
            } else if j + n <= s.len() {
                assert(s.subrange(j, j + n) =~= rest.subrange(j - 1, j - 1 + n));
                assert(!occurs_at(rest, pattern, j - 1));
            }
        }
        if f < rest.len() {
            assert(s.subrange(1 + f, 1 + f + n) =~= rest.subrange(f, f + n));
            assert(occurs_at(s, pattern, 1 + f));
        } else {
            assert forall|j: int| !occurs_at(s, pattern, j) by {
                if 1 <= j && j + n <= s.len() {
                    assert(s.subrange(j, j + n) =~= rest.subrange(j - 1, j - 1 + n));
                    assert(!occurs_at(rest, pattern, j - 1));
                }
            }
        }
    }
}

/// A replacement changes a text at its placeholders and nowhere else: what
/// stands before the first occurrence of the pattern is kept, the
/// occurrence gives way to the replacement, and the rest of the text is
/// treated in the same way. A text without the pattern stays as it is.
pub proof fn lemma_replace_all_by_occurrence(
    s: Seq<char>,
    pattern: Seq<char>,
    replacement: Seq<char>,
)
    requires
        pattern.len() > 0,
    ensures
        replace_all(s, pattern, replacement) == (if first_occurrence(s, pattern) < s.len() {
            s.take(first_occurrence(s, pattern)) + replacement + replace_all(
                s.skip(first_occurrence(s, pattern) + pattern.len()),
                pattern,
                replacement,
            )
        } else {
            s
        }),
        first_occurrence(s, pattern) < s.len() ==> s == s.take(first_occurrence(s, pattern))
            + pattern + s.skip(first_occurrence(s, pattern) + pattern.len()),
    decreases s.len(),
{
    let n = pattern.len() as int;
    let f = first_occurrence(s, pattern);
    lemma_first_occurrence(s, pattern);
    if s.len() < n {
    } else if s.take(n) == pattern {
        assert(s.take(0) + replacement + replace_all(s.skip(n), pattern, replacement)
            =~= replacement + replace_all(s.skip(n), pattern, replacement));
        assert(s =~= s.take(0) + pattern + s.skip(n));
    } else {
        let rest = s.skip(1);
        let g = first_occurrence(rest, pattern);
        lemma_replace_all_by_occurrence(rest, pattern, replacement);
        lemma_first_occurrence(rest, pattern);
        if g < rest.len() {
            assert(rest.skip(g + n) =~= s.skip(f + n));
            assert(seq![s[0]] + rest.take(g) =~= s.take(f));
            assert(seq![s[0]] + (rest.take(g) + replacement + replace_all(
                rest.skip(g + n),
                pattern,
                replacement,
            )) =~= s.take(f) + replacement + replace_all(s.skip(f + n), pattern, replacement));
            assert(s =~= s.take(f) + pattern + s.skip(f + n)) by {
                assert(rest =~= rest.take(g) + pattern + rest.skip(g + n));
                assert(s =~= seq![s[0]] + rest);
            }
        } else {
            assert(seq![s[0]] + rest =~= s);
        }
    }
}

/// As far as a replaced text begins with characters that the replacement
/// does not hold, it begins as the text itself did.
proof fn lemma_replaced_prefix(
    s: Seq<char>,
    pattern: Seq<char>,
    replacement: Seq<char>,
    k: int,
)
    requires
        pattern.len() > 0,
        replacement.len() > 0,
        0 <= k <= replace_all(s, pattern, replacement).len(),
        forall|j: int|
            0 <= j < k ==> !replacement.contains(#[trigger] replace_all(s, pattern, replacement)[j]),
    ensures
        k <= s.len(),
        s.take(k) == replace_all(s, pattern, replacement).take(k),
    decreases s.len(),
{
    let n = pattern.len() as int;
    let out = replace_all(s, pattern, replacement);
    if k == 0 {
        assert(s.take(0) =~= out.take(0));
    } else if s.len() < n {
    } else if s.take(n) == pattern {
        assert(out[0] == replacement[0]);
        assert(replacement.contains(replacement[0]));
        assert(false);
    } else {
        let rest = s.skip(1);
        let tail = replace_all(rest, pattern, replacement);
        assert(out =~= seq![s[0]] + tail);
        assert forall|j: int| 0 <= j < k - 1 implies !replacement.contains(#[trigger] tail[j]) by {
            assert(tail[j] == out[j + 1]);
        }
        lemma_replaced_prefix(rest, pattern, replacement, k - 1);
        assert(s.take(k) =~= seq![s[0]] + rest.take(k - 1));
        assert(out.take(k) =~= seq![s[0]] + tail.take(k - 1));
    }
}

/// Where the replacement is not empty and shares no character with the
/// pattern, the pattern stands nowhere in the replaced text.
pub proof fn lemma_no_pattern_left(s: Seq<char>, pattern: Seq<char>, replacement: Seq<char>)
    requires
        pattern.len() > 0,
        replacement.len() > 0,
        no_common_char(replacement, pattern),
    ensures
        !occurs(replace_all(s, pattern, replacement), pattern),
    decreases s.len(),
{
    let n = pattern.len() as int;
    let out = replace_all(s, pattern, replacement);
    assert forall|i: int| !occurs_at(out, pattern, i) by {
        if occurs_at(out, pattern, i) {
            let found = out.subrange(i, i + n);
            if s.len() < n {
                assert(false);
            } else if s.take(n) == pattern {
                let tail = replace_all(s.skip(n), pattern, replacement);
                lemma_no_pattern_left(s.skip(n), pattern, replacement);
                assert(out =~= replacement + tail);
                if i < replacement.len() {
                    assert(found[0] == out[i]);
                    assert(out[i] == replacement[i]);
                    assert(found[0] == pattern[0]);
                    assert(false);
                } else {
                    let at = i - replacement.len();
                    assert(tail.subrange(at, at + n) =~= found);
                    assert(occurs_at(tail, pattern, at));
                    assert(false);
                }
            } else {
                let tail = replace_all(s.skip(1), pattern, replacement);
                lemma_no_pattern_left(s.skip(1), pattern, replacement);
                assert(out =~= seq![s[0]] + tail);
                if i >= 1 {
                    assert(tail.subrange(i - 1, i - 1 + n) =~= found);
                    assert(occurs_at(tail, pattern, i - 1));
                    assert(false);
                } else {
                    assert forall|j: int| 0 <= j < n implies !replacement.contains(
                        #[trigger] out[j],
                    ) by {
                        assert(found[j] == out[j]);
                        assert(out[j] == pattern[j]);
                        if replacement.contains(out[j]) {
                            let r = choose|r: int|
                                0 <= r < replacement.len() && replacement[r] == out[j];
                            assert(replacement[r] != pattern[j]);
                        }
                    }
                    lemma_replaced_prefix(s, pattern, replacement, n);
                    assert(out.take(n) =~= found);
                    assert(false);
                }
            }
        }
    }
}

/// Every character of a number in decimal is a digit, and there is at
/// least one.
pub proof fn lemma_decimal_is_digits(n: nat)
    ensures
        decimal(n).len() >= 1,
        forall|i: int|
            0 <= i < decimal(n).len() ==> '0' <= (#[trigger] decimal(n)[i]) && decimal(n)[i]
                <= '9',
    decreases n,
{
    if n >= 10 {
        lemma_decimal_is_digits(n / 10);
    }
}

/// Whether `pattern` stands in `chars` at index `at`.
fn matches_at(chars: &Vec<char>, at: usize, pattern: &Vec<char>) -> (b: bool)
    requires
        at + pattern.len() <= chars.len(),
    ensures
        b == (chars@.skip(at as int).take(pattern.len() as int) == pattern@),
{
    let ghost window = chars@.skip(at as int).take(pattern.len() as int);
    let mut j: usize = 0;
    while j < pattern.len()
        invariant
            j <= pattern.len(),
            at + pattern.len() <= chars.len(),
            window == chars@.skip(at as int).take(pattern.len() as int),
            forall|k: int| 0 <= k < j ==> window[k] == pattern@[k],
        decreases pattern.len() - j,
    {
        if chars[at + j] != pattern[j] {
            assert(window[j as int] != pattern@[j as int]);
            return false;
        }
        j += 1;
    }
    assert(window =~= pattern@);
    true
}

/// `text` with every occurrence of `pattern` replaced by `replacement`.
pub fn replace_text(text: &str, pattern: &str, replacement: &str) -> (out: String)
    ensures
        out@ == replace_all(text@, pattern@, replacement@),
{
    let tc = chars_of(text);
    let pc = chars_of(pattern);
    if pc.len() == 0 || tc.len() < pc.len() {
        return String::from_str(text);
    }
    let mut out = String::new();
    let mut run: usize = 0;
    let mut i: usize = 0;
    proof {
        assert(text@.skip(0) =~= text@);
        assert(out@ + text@.subrange(0, 0) + replace_all(text@, pattern@, replacement@)
            =~= replace_all(text@, pattern@, replacement@));
    }
    while i <= tc.len() - pc.len()
        invariant
            run <= i <= tc.len(),
            0 < pc.len() <= tc.len(),
            tc@ == text@,
            pc@ == pattern@,
            out@ + text@.subrange(run as int, i as int) + replace_all(
                text@.skip(i as int),
                pattern@,
                replacement@,
            ) == replace_all(text@, pattern@, replacement@),
        decreases tc.len() - i,
    {
        let ghost tail = text@.skip(i as int);
        let ghost before = out@;
        if matches_at(&tc, i, &pc) {
            out.append(text.substring_char(run, i));
            out.append(replacement);
            proof {
                let next = i + pc.len();
                assert(tail.skip(pc.len() as int) =~= text@.skip(next as int));
                assert(out@ + text@.subrange(next as int, next as int) + replace_all(
                    text@.skip(next as int),
                    pattern@,
                    replacement@,
                ) =~= before + text@.subrange(run as int, i as int) + (replacement@ + replace_all(
                    tail.skip(pc.len() as int),
                    pattern@,
                    replacement@,
                )));
            }
            i += pc.len();
            run = i;
        } else {
            proof {
                assert(tail.skip(1) =~= text@.skip(i + 1));
                assert(text@.subrange(run as int, i + 1) =~= text@.subrange(run as int, i as int)
                    + seq![tail[0]]);
                assert(out@ + text@.subrange(run as int, i + 1) + replace_all(
                    text@.skip(i + 1),
                    pattern@,
                    replacement@,
                ) =~= before + text@.subrange(run as int, i as int) + (seq![tail[0]]
                    + replace_all(tail.skip(1), pattern@, replacement@)));
            }
            i += 1;
        }
    }
    out.append(text.substring_char(run, tc.len()));
    proof {
        assert(text@.subrange(run as int, tc.len() as int) =~= text@.subrange(
            run as int,
            i as int,
        ) + text@.skip(i as int));
    }
    out
}

/// Whether `c` is white space: one of the characters that Unicode marks
/// so, which are the ones that `str::trim` takes off.
pub open spec fn is_space(c: char) -> bool {
    let u = c as u32;
    (0x09 <= u <= 0x0d) || u == 0x20 || u == 0x85 || u == 0xa0 || u == 0x1680 || (0x2000 <= u
        <= 0x200a) || u == 0x2028 || u == 0x2029 || u == 0x202f || u == 0x205f || u == 0x3000
}

/// `s` without the white space at its beginning.
pub open spec fn trimmed_start(s: Seq<char>) -> Seq<char>
    decreases s.len(),
{
    if s.len() > 0 && is_space(s[0]) {
        trimmed_start(s.drop_first())
    } else {
        s
    }
}

/// `s` without the white space at its end.
pub open spec fn trimmed_end(s: Seq<char>) -> Seq<char>
    decreases s.len(),
{
    if s.len() > 0 && is_space(s.last()) {
        trimmed_end(s.drop_last())
    } else {
        s
    }
}

/// `s` without the white space at its beginning and at its end.
pub open spec fn trimmed(s: Seq<char>) -> Seq<char> {
    trimmed_end(trimmed_start(s))
}

/// Whether `c` is white space.
pub fn is_whitespace(c: char) -> (b: bool)
    ensures
        b == is_space(c),
{
    let u = c as u32;
    (0x09 <= u && u <= 0x0d) || u == 0x20 || u == 0x85 || u == 0xa0 || u == 0x1680 || (0x2000 <= u
        && u <= 0x200a) || u == 0x2028 || u == 0x2029 || u == 0x202f || u == 0x205f || u == 0x3000
}

/// `s` without the white space at its beginning and at its end.
pub fn trim_text(s: &str) -> (out: &str)
    ensures
        out@ == trimmed(s@),
{
    let chars = chars_of(s);
    let mut start: usize = 0;
    assert(s@.skip(0) =~= s@);
    while start < chars.len() && is_whitespace(chars[start])
        invariant
            start <= chars.len(),
            chars@ == s@,
            trimmed_start(s@.skip(start as int)) == trimmed_start(s@),
        decreases chars.len() - start,
    {
        proof {
            assert(s@.skip(start as int).drop_first() =~= s@.skip(start + 1));
        }
        start += 1;
    }
    let ghost rest = s@.skip(start as int);
    assert(trimmed_start(s@) == rest);
    let mut end: usize = chars.len();
    assert(rest.take(end - start) =~= rest);
    while end > start && is_whitespace(chars[end - 1])
        invariant
            start <= end <= chars.len(),
            chars@ == s@,
            rest == s@.skip(start as int),
            trimmed_end(rest.take(end - start)) == trimmed_end(rest),
        decreases end,
    {
        proof {
            assert(rest.take(end - start).last() == chars@[end - 1]);
            assert(rest.take(end - start).drop_last() =~= rest.take(end - 1 - start));
        }
        end -= 1;
    }
    proof {
        let kept = rest.take(end - start);
        if end > start {
            assert(kept.last() == chars@[end - 1]);
        }
        assert(trimmed_end(kept) == kept);
        assert(kept =~= s@.subrange(start as int, end as int));
    }
    s.substring_char(start, end)
}

} // verus!
