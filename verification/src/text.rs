//! Splitting, trimming and joining of text, over sequences of characters.
//!
//! The specification functions say what each operation yields; the executable
//! functions compute it in one pass over the characters; the lemmas state how
//! the operations undo each other.

use vstd::prelude::*;
use vstd::string::StringExecFns;

verus! {

/// Whether `c` is white space: the code points that carry Unicode's
/// `White_Space` property.
pub open spec fn is_space(c: char) -> bool {
    let n = c as u32;
    ||| 0x09 <= n <= 0x0d
    ||| n == 0x20
    ||| n == 0x85
    ||| n == 0xa0
    ||| n == 0x1680
    ||| 0x2000 <= n <= 0x200a
    ||| n == 0x2028
    ||| n == 0x2029
    ||| n == 0x202f
    ||| n == 0x205f
    ||| n == 0x3000
}

/// `s` without its leading white space.
pub open spec fn trim_start(s: Seq<char>) -> Seq<char>
    decreases s.len(),
{
    if s.len() > 0 && is_space(s[0]) {
        trim_start(s.drop_first())
    } else {
        s
    }
}

/// `s` without its trailing white space.
pub open spec fn trim_end(s: Seq<char>) -> Seq<char>
    decreases s.len(),
{
    if s.len() > 0 && is_space(s.last()) {
        trim_end(s.drop_last())
    } else {
        s
    }
}

/// `s` without white space at either end.
pub open spec fn trim(s: Seq<char>) -> Seq<char> {
    trim_end(trim_start(s))
}

/// Whether `s` neither starts nor ends in white space.
pub open spec fn is_trimmed(s: Seq<char>) -> bool {
    s.len() == 0 || (!is_space(s[0]) && !is_space(s.last()))
}

/// The index of the first `c` in `s`, or the length of `s` where there is none.
pub open spec fn first_index(s: Seq<char>, c: char) -> int
    decreases s.len(),
{
    if s.len() == 0 || s[0] == c {
        0
    } else {
        1 + first_index(s.drop_first(), c)
    }
}

/// The pieces of `s` that lie between the occurrences of `sep`, in order.
/// A text without `sep` is one piece; `n` separators make `n + 1` pieces,
/// some of which may be empty.
pub open spec fn split(s: Seq<char>, sep: char) -> Seq<Seq<char>>
    decreases s.len(),
{
    if s.len() == 0 {
        seq![Seq::<char>::empty()]
    } else {
        let before = split(s.drop_last(), sep);
        if s.last() == sep {
            before.push(Seq::<char>::empty())
        } else {
            before.update(before.len() - 1, before.last().push(s.last()))
        }
    }
}

/// The pieces of `s` between the occurrences of `sep`, each trimmed.
pub open spec fn split_trim(s: Seq<char>, sep: char) -> Seq<Seq<char>> {
    split(s, sep).map_values(|piece: Seq<char>| trim(piece))
}

/// `parts` in order, with `sep` between each two neighbours.
pub open spec fn join(parts: Seq<Seq<char>>, sep: Seq<char>) -> Seq<char>
    decreases parts.len(),
{
    if parts.len() == 0 {
        Seq::<char>::empty()
    } else if parts.len() == 1 {
        parts[0]
    } else {
        join(parts.drop_last(), sep) + sep + parts.last()
    }
}

/// Whether `ranges` say where the pieces of `s` between the occurrences of
/// `sep` begin and end, one range for each piece, in order.
pub open spec fn marks_pieces(ranges: Seq<(usize, usize)>, s: Seq<char>, sep: char) -> bool {
    &&& ranges.len() == split(s, sep).len()
    &&& forall|k: int|
        0 <= k < ranges.len() ==> {
            &&& (#[trigger] ranges[k]).0 <= ranges[k].1 <= s.len()
            &&& s.subrange(ranges[k].0 as int, ranges[k].1 as int) == split(s, sep)[k]
        }
}

/// Whether no part holds `c`.
pub open spec fn all_free_of(parts: Seq<Seq<char>>, c: char) -> bool {
    forall|i: int| 0 <= i < parts.len() ==> !(#[trigger] parts[i]).contains(c)
}

/// Whether every part is trimmed.
pub open spec fn all_trimmed(parts: Seq<Seq<char>>) -> bool {
    forall|i: int| 0 <= i < parts.len() ==> is_trimmed(#[trigger] parts[i])
}

/// `String::push` appends one character.
pub assume_specification[ std::string::String::push ](s: &mut std::string::String, c: char)
    ensures
        final(s)@ == old(s)@.push(c),
;

/// Whether `c` is white space.
pub fn is_space_char(c: char) -> (r: bool)
    ensures
        r == is_space(c),
{
    let n: u32 = c as u32;
    (0x09 <= n && n <= 0x0d) || n == 0x20 || n == 0x85 || n == 0xa0 || n == 0x1680 || (0x2000 <= n
        && n <= 0x200a) || n == 0x2028 || n == 0x2029 || n == 0x202f || n == 0x205f || n == 0x3000
}

/// The characters of `s`.
pub fn chars_of(s: &str) -> (out: Vec<char>)
    ensures
        out@ == s@,
{
    broadcast use vstd::string::group_string_axioms;

    let mut out: Vec<char> = Vec::new();
    for c in it: s.chars()
        invariant
            it.seq() == s@,
            out@ == s@.take(it.index()),
    {
        out.push(c);
    }
    out
}

/// The text made of `chars[from..to]`.
pub(crate) fn string_of(chars: &Vec<char>, from: usize, to: usize) -> (out: String)
    requires
        from <= to <= chars.len(),
    ensures
        out@ == chars@.subrange(from as int, to as int),
{
    let mut out = String::new();
    let mut i: usize = from;
    while i < to
        invariant
            from <= i <= to <= chars.len(),
            out@ == chars@.subrange(from as int, i as int),
        decreases to - i,
    {
        out.push(chars[i]);
        i += 1;
    }
    out
}

/// Where the first `c` stands in `chars[from..to]`, or `to` where there is none.
pub(crate) fn find_char(chars: &Vec<char>, from: usize, to: usize, c: char) -> (i: usize)
    requires
        from <= to <= chars.len(),
    ensures
        from <= i <= to,
        i - from == first_index(chars@.subrange(from as int, to as int), c),
{
    let ghost s = chars@.subrange(from as int, to as int);
    let mut i: usize = from;
    proof {
        assert(s.skip(0) == s);
    }
    while i < to && chars[i] != c
        invariant
            from <= i <= to <= chars.len(),
            s == chars@.subrange(from as int, to as int),
            first_index(s, c) == (i - from) + first_index(s.skip(i - from), c),
        decreases to - i,
    {
        proof {
            assert(s.skip(i - from).drop_first() == s.skip(i - from + 1));
            assert(s.skip(i - from)[0] == chars@[i as int]);
        }
        i += 1;
    }
    proof {
        if i < to {
            assert(s.skip(i - from)[0] == chars@[i as int]);
        }
    }
    i
}

/// Whether two texts are the same, character by character.
pub fn same_text(a: &str, b: &str) -> (r: bool)
    ensures
        r == (a@ == b@),
{
    let x = chars_of(a);
    let y = chars_of(b);
    if x.len() != y.len() {
        return false;
    }
    let mut i: usize = 0;
    while i < x.len()
        invariant
            i <= x.len(),
            x.len() == y.len(),
            x@ == a@,
            y@ == b@,
            forall|j: int| 0 <= j < i ==> x@[j] == y@[j],
        decreases x.len() - i,
    {
        if x[i] != y[i] {
            return false;
        }
        i += 1;
    }
    assert(x@ == y@);
    true
}

/// Where the pieces of `chars` between the occurrences of `sep` begin and end.
pub(crate) fn split_ranges(chars: &Vec<char>, sep: char) -> (out: Vec<(usize, usize)>)
    ensures
        marks_pieces(out@, chars@, sep),
{
    let n = chars.len();
    let mut out: Vec<(usize, usize)> = Vec::new();
    let mut start: usize = 0;
    let mut i: usize = 0;
    while i < n
        invariant
            n == chars.len(),
            start <= i <= n,
            split(chars@.take(i as int), sep).len() == out.len() + 1,
            split(chars@.take(i as int), sep).last() == chars@.subrange(start as int, i as int),
            forall|k: int|
                0 <= k < out.len() ==> {
                    &&& (#[trigger] out@[k]).0 <= out@[k].1 <= n
                    &&& chars@.subrange(out@[k].0 as int, out@[k].1 as int) == split(
                        chars@.take(i as int),
                        sep,
                    )[k]
                },
        decreases n - i,
    {
        proof {
            assert(chars@.take(i + 1).drop_last() == chars@.take(i as int));
        }
        if chars[i] == sep {
            out.push((start, i));
            start = i + 1;
            proof {
                assert(chars@.subrange(start as int, start as int) == Seq::<char>::empty());
            }
        } else {
            proof {
                assert(chars@.subrange(start as int, i as int).push(chars@[i as int])
                    == chars@.subrange(start as int, i + 1));
            }
        }
        i += 1;
    }
    out.push((start, n));
    proof {
        assert(chars@.take(n as int) == chars@);
    }
    out
}

/// `chars[from..to]` without white space at either end, as text.
pub(crate) fn trim_chars(chars: &Vec<char>, from: usize, to: usize) -> (out: String)
    requires
        from <= to <= chars.len(),
    ensures
        out@ == trim(chars@.subrange(from as int, to as int)),
{
    let ghost s = chars@.subrange(from as int, to as int);
    let mut a: usize = from;
    while a < to && is_space_char(chars[a])
        invariant
            from <= a <= to <= chars.len(),
            forall|j: int| from <= j < a ==> is_space(chars@[j]),
        decreases to - a,
    {
        a += 1;
    }
    let mut b: usize = to;
    while b > a && is_space_char(chars[b - 1])
        invariant
            a <= b <= to <= chars.len(),
            forall|j: int| b <= j < to ==> is_space(chars@[j]),
        decreases b - a,
    {
        b -= 1;
    }
    proof {
        lemma_trim_bounds(s, a - from, b - from);
        assert(s.subrange(a - from, b - from) == chars@.subrange(a as int, b as int));
    }
    string_of(chars, a, b)
}

/// `s` without white space at either end.
pub fn trim_str(s: &str) -> (out: String)
    ensures
        out@ == trim(s@),
{
    let chars = chars_of(s);
    proof {
        assert(chars@.subrange(0, chars@.len() as int) == chars@);
    }
    trim_chars(&chars, 0, chars.len())
}

/// The pieces of `value` between the occurrences of `sep`, each trimmed.
pub fn split_trimmed(value: &str, sep: char) -> (out: Vec<String>)
    ensures
        out.deep_view() == split_trim(value@, sep),
{
    let chars = chars_of(value);
    let ranges = split_ranges(&chars, sep);
    let mut out: Vec<String> = Vec::new();
    let mut k: usize = 0;
    while k < ranges.len()
        invariant
            k <= ranges.len(),
            marks_pieces(ranges@, chars@, sep),
            out.deep_view() == split_trim(chars@, sep).take(k as int),
        decreases ranges.len() - k,
    {
        let (from, to) = ranges[k];
        let piece = trim_chars(&chars, from, to);
        let ghost old_out = out.deep_view();
        out.push(piece);
        proof {
            assert(out.deep_view() == old_out.push(piece@));
            assert(split_trim(chars@, sep).take(k + 1) == split_trim(chars@, sep).take(
                k as int,
            ).push(split_trim(chars@, sep)[k as int]));
        }
        k += 1;
    }
    proof {
        assert(split_trim(chars@, sep).take(ranges.len() as int) == split_trim(chars@, sep));
    }
    out
}

/// `items` in order, with `sep` between each two neighbours.
pub fn join_strings(items: &Vec<String>, sep: &str) -> (out: String)
    ensures
        out@ == join(items.deep_view(), sep@),
{
    let ghost parts = items.deep_view();
    let mut out = String::new();
    let mut i: usize = 0;
    while i < items.len()
        invariant
            i <= items.len(),
            parts == items.deep_view(),
            out@ == join(parts.take(i as int), sep@),
        decreases items.len() - i,
    {
        if i > 0 {
            out.append(sep);
        }
        out.append(items[i].as_str());
        proof {
            assert(parts.take(i + 1).drop_last() == parts.take(i as int));
            assert(parts.take(i + 1).last() == items@[i as int]@);
        }
        i += 1;
    }
    proof {
        assert(parts.take(items.len() as int) == parts);
    }
    out
}

/// Trimming cuts `s` down to `s[a..b]`, where `a` is the number of leading
/// white-space characters and `b` is where the trailing ones begin.
pub proof fn lemma_trim_bounds(s: Seq<char>, a: int, b: int)
    requires
        0 <= a <= b <= s.len(),
        forall|j: int| 0 <= j < a ==> is_space(s[j]),
        forall|j: int| b <= j < s.len() ==> is_space(s[j]),
        a == s.len() || !is_space(s[a]),
        b == a || !is_space(s[b - 1]),
    ensures
        trim(s) == s.subrange(a, b),
{
    lemma_trim_start_skips(s, a);
    let t = s.skip(a);
    assert forall|j: int| b - a <= j < t.len() implies is_space(t[j]) by {
        assert(t[j] == s[j + a]);
    }
    lemma_trim_end_takes(t, b - a);
    assert(t.take(b - a) == s.subrange(a, b));
}

proof fn lemma_trim_start_skips(s: Seq<char>, a: int)
    requires
        0 <= a <= s.len(),
        forall|j: int| 0 <= j < a ==> is_space(s[j]),
        a == s.len() || !is_space(s[a]),
    ensures
        trim_start(s) == s.skip(a),
    decreases a,
{
    if a == 0 {
        assert(s.skip(0) == s);
    } else {
        let rest = s.drop_first();
        assert forall|j: int| 0 <= j < a - 1 implies is_space(rest[j]) by {
            assert(rest[j] == s[j + 1]);
        }
        lemma_trim_start_skips(rest, a - 1);
        assert(rest.skip(a - 1) == s.skip(a));
    }
}

proof fn lemma_trim_end_takes(s: Seq<char>, b: int)
    requires
        0 <= b <= s.len(),
        forall|j: int| b <= j < s.len() ==> is_space(s[j]),
        b == 0 || !is_space(s[b - 1]),
    ensures
        trim_end(s) == s.take(b),
    decreases s.len() - b,
{
    if b == s.len() {
        assert(s.take(b) == s);
    } else {
        let rest = s.drop_last();
        lemma_trim_end_takes(rest, b);
        assert(rest.take(b) == s.take(b));
    }
}


/// A part of a text holds nothing that the text does not hold.
pub proof fn lemma_part_free(s: Seq<char>, from: int, to: int, c: char)
    requires
        0 <= from <= to <= s.len(),
        !s.contains(c),
    ensures
        !s.subrange(from, to).contains(c),
{
    let part = s.subrange(from, to);
    if part.contains(c) {
        let j = choose|j: int| 0 <= j < part.len() && part[j] == c;
        assert(s[from + j] == c);
    }
}

/// Two texts put together hold nothing that neither of them holds.
pub proof fn lemma_joined_free(x: Seq<char>, y: Seq<char>, c: char)
    requires
        !x.contains(c),
        !y.contains(c),
    ensures
        !(x + y).contains(c),
{
    let whole = x + y;
    if whole.contains(c) {
        let j = choose|j: int| 0 <= j < whole.len() && whole[j] == c;
        if j < x.len() {
            assert(x[j] == c);
        } else {
            assert(y[j - x.len()] == c);
        }
    }
}

/// The first `c` stands within the text or at its end, and no `c` stands
/// before it.
pub proof fn lemma_first_index_bounds(s: Seq<char>, c: char)
    ensures
        0 <= first_index(s, c) <= s.len(),
        forall|j: int| 0 <= j < first_index(s, c) ==> s[j] != c,
        first_index(s, c) < s.len() ==> s[first_index(s, c)] == c,
        !s.take(first_index(s, c)).contains(c),
    decreases s.len(),
{
    if s.len() > 0 && s[0] != c {
        let rest = s.drop_first();
        lemma_first_index_bounds(rest, c);
        assert forall|j: int| 0 <= j < first_index(s, c) implies s[j] != c by {
            if j > 0 {
                assert(rest[j - 1] == s[j]);
            }
        }
    }
}

/// Where `c` first stands behind text that does not hold it.
pub proof fn lemma_first_index(a: Seq<char>, c: char, b: Seq<char>)
    requires
        !a.contains(c),
    ensures
        first_index(a + seq![c] + b, c) == a.len(),
    decreases a.len(),
{
    let whole = a + seq![c] + b;
    if a.len() == 0 {
        assert(whole[0] == c);
    } else {
        assert(whole[0] == a[0]);
        assert(a[0] != c);
        let rest = a.drop_first();
        lemma_part_free(a, 1, a.len() as int, c);
        lemma_first_index(rest, c, b);
        assert(whole.drop_first() == rest + seq![c] + b);
    }
}

/// The pieces of a text are the only parts without the separator that,
/// joined with the separator, make the text.
pub proof fn lemma_split_unique(s: Seq<char>, sep: char, parts: Seq<Seq<char>>)
    requires
        parts.len() >= 1,
        all_free_of(parts, sep),
        join(parts, seq![sep]) == s,
    ensures
        split(s, sep) == parts,
{
    let nothing = Seq::<char>::empty();
    lemma_split_join(parts, sep, nothing);
    assert(seq![sep] + nothing == seq![sep]);
    assert forall|i: int| 0 <= i < parts.len() implies padded(parts, nothing)[i] == parts[i] by {
        assert(nothing + parts[i] == parts[i]);
    }
    assert(padded(parts, nothing) == parts);
}

/// Splitting never yields fewer than one piece, and no piece holds the
/// separator.
pub proof fn lemma_split_pieces(s: Seq<char>, sep: char)
    ensures
        split(s, sep).len() >= 1,
        all_free_of(split(s, sep), sep),
    decreases s.len(),
{
    if s.len() > 0 {
        let before = split(s.drop_last(), sep);
        lemma_split_pieces(s.drop_last(), sep);
        if s.last() == sep {
            assert forall|i: int| 0 <= i < split(s, sep).len() implies !(#[trigger] split(
                s,
                sep,
            )[i]).contains(sep) by {
                if i < before.len() {
                    assert(split(s, sep)[i] == before[i]);
                }
            }
        } else {
            let grown = before.last().push(s.last());
            assert forall|i: int| 0 <= i < split(s, sep).len() implies !(#[trigger] split(
                s,
                sep,
            )[i]).contains(sep) by {
                if i < before.len() - 1 {
                    assert(split(s, sep)[i] == before[i]);
                } else {
                    assert(split(s, sep)[i] == grown);
                    assert(grown == before.last() + seq![s.last()]);
                    lemma_joined_free(before.last(), seq![s.last()], sep);
                }
            }
        }
    }
}

/// Splitting loses nothing: the pieces, joined with the separator, are the
/// text again.
pub proof fn lemma_join_split(s: Seq<char>, sep: char)
    ensures
        join(split(s, sep), seq![sep]) == s,
    decreases s.len(),
{
    if s.len() == 0 {
        assert(join(split(s, sep), seq![sep]) == s);
    } else {
        let init = s.drop_last();
        let before = split(init, sep);
        lemma_join_split(init, sep);
        lemma_split_pieces(init, sep);
        if s.last() == sep {
            let pieces = before.push(Seq::<char>::empty());
            assert(pieces.drop_last() == before);
            assert(join(pieces, seq![sep]) == init + seq![sep] + Seq::<char>::empty());
            assert(init + seq![sep] + Seq::<char>::empty() == s);
        } else {
            let grown = before.last().push(s.last());
            let pieces = before.update(before.len() - 1, grown);
            if before.len() == 1 {
                assert(join(before, seq![sep]) == before[0]);
                assert(join(pieces, seq![sep]) == grown);
                assert(grown == s);
            } else {
                assert(pieces.drop_last() == before.drop_last());
                assert(join(pieces, seq![sep]) == join(before.drop_last(), seq![sep]) + seq![sep]
                    + grown);
                assert(join(before, seq![sep]) == join(before.drop_last(), seq![sep]) + seq![sep]
                    + before.last());
                assert(join(before.drop_last(), seq![sep]) + seq![sep] + grown == (join(
                    before.drop_last(),
                    seq![sep],
                ) + seq![sep] + before.last()).push(s.last()));
                assert(init.push(s.last()) == s);
            }
        }
    }
}

/// Text without the separator, put behind `x`, extends the last piece of `x`.
pub proof fn lemma_split_append(x: Seq<char>, y: Seq<char>, sep: char)
    requires
        !y.contains(sep),
    ensures
        split(x + y, sep) == split(x, sep).update(
            split(x, sep).len() - 1,
            split(x, sep).last() + y,
        ),
    decreases y.len(),
{
    lemma_split_pieces(x, sep);
    let pieces = split(x, sep);
    if y.len() == 0 {
        assert(x + y == x);
        assert(pieces.last() + y == pieces.last());
        assert(pieces.update(pieces.len() - 1, pieces.last()) == pieces);
    } else {
        let init = y.drop_last();
        lemma_part_free(y, 0, y.len() - 1, sep);
        assert(y.last() != sep) by {
            assert(y[y.len() - 1] == y.last());
        }
        lemma_split_append(x, init, sep);
        assert((x + y).drop_last() == x + init);
        assert((x + y).last() == y.last());
        assert((pieces.last() + init).push(y.last()) == pieces.last() + y);
    }
}

/// The pieces that come out when `parts` were joined with the separator and
/// `pad` behind it: the first part as it is, each later one behind `pad`.
pub open spec fn padded(parts: Seq<Seq<char>>, pad: Seq<char>) -> Seq<Seq<char>> {
    Seq::new(
        parts.len(),
        |i: int|
            if i == 0 {
                parts[0]
            } else {
                pad + parts[i]
            },
    )
}

/// Splitting what was joined gives the parts back, each later one still
/// behind the padding of the separator.
pub proof fn lemma_split_join(parts: Seq<Seq<char>>, sep: char, pad: Seq<char>)
    requires
        parts.len() >= 1,
        all_free_of(parts, sep),
        !pad.contains(sep),
    ensures
        split(join(parts, seq![sep] + pad), sep) == padded(parts, pad),
    decreases parts.len(),
{
    let between = seq![sep] + pad;
    if parts.len() == 1 {
        assert(!parts[0].contains(sep));
        lemma_split_append(Seq::<char>::empty(), parts[0], sep);
        assert(Seq::<char>::empty() + parts[0] == parts[0]);
        assert(split(parts[0], sep) == padded(parts, pad));
    } else {
        let init = parts.drop_last();
        let p = parts.last();
        assert(all_free_of(init, sep)) by {
            assert forall|i: int| 0 <= i < init.len() implies !(#[trigger] init[i]).contains(
                sep,
            ) by {
                assert(init[i] == parts[i]);
            }
        }
        lemma_split_join(init, sep, pad);
        let x = join(init, between);
        let xs = x + seq![sep];
        assert(xs.drop_last() == x);
        assert(xs.last() == sep);
        assert(split(xs, sep) == split(x, sep).push(Seq::<char>::empty()));
        let tail = pad + p;
        assert(!p.contains(sep)) by {
            assert(p == parts[parts.len() - 1]);
        }
        lemma_joined_free(pad, p, sep);
        lemma_split_append(xs, tail, sep);
        assert(join(parts, between) == xs + tail);
        assert(Seq::<char>::empty() + tail == tail);
        assert(split(xs + tail, sep) == padded(init, pad).push(tail));
        assert(padded(init, pad).push(tail) == padded(parts, pad));
    }
}

/// Trimming keeps out what the text did not hold, and what is left neither
/// starts nor ends in white space.
pub proof fn lemma_trim_result(s: Seq<char>, c: char)
    ensures
        is_trimmed(trim(s)),
        !s.contains(c) ==> !trim(s).contains(c),
{
    lemma_trim_start_result(s, c);
    lemma_trim_end_result(trim_start(s), c);
}

proof fn lemma_trim_start_result(s: Seq<char>, c: char)
    ensures
        trim_start(s).len() == 0 || !is_space(trim_start(s)[0]),
        !s.contains(c) ==> !trim_start(s).contains(c),
    decreases s.len(),
{
    if s.len() > 0 && is_space(s[0]) {
        let rest = s.drop_first();
        lemma_trim_start_result(rest, c);
        if !s.contains(c) {
            lemma_part_free(s, 1, s.len() as int, c);
        }
    }
}

proof fn lemma_trim_end_result(s: Seq<char>, c: char)
    ensures
        trim_end(s).len() == 0 || !is_space(trim_end(s).last()),
        trim_end(s).len() > 0 ==> s.len() > 0 && trim_end(s)[0] == s[0],
        !s.contains(c) ==> !trim_end(s).contains(c),
    decreases s.len(),
{
    if s.len() > 0 && is_space(s.last()) {
        let rest = s.drop_last();
        lemma_trim_end_result(rest, c);
        if !s.contains(c) {
            lemma_part_free(s, 0, s.len() - 1, c);
        }
    }
}

/// White space in front of a trimmed text is all that trimming removes.
pub proof fn lemma_trim_padded(pad: Seq<char>, s: Seq<char>)
    requires
        forall|j: int| 0 <= j < pad.len() ==> is_space(pad[j]),
        is_trimmed(s),
    ensures
        trim(pad + s) == s,
    decreases pad.len(),
{
    if pad.len() == 0 {
        assert(pad + s == s);
    } else {
        let rest = pad.drop_first();
        assert((pad + s).drop_first() == rest + s);
        assert((pad + s)[0] == pad[0]);
        assert forall|j: int| 0 <= j < rest.len() implies is_space(rest[j]) by {
            assert(rest[j] == pad[j + 1]);
        }
        lemma_trim_padded(rest, s);
    }
}

/// Each piece that `split_trim` yields is trimmed and free of the separator,
/// and there is at least one.
pub proof fn lemma_split_trim_pieces(s: Seq<char>, sep: char)
    ensures
        split_trim(s, sep).len() >= 1,
        all_free_of(split_trim(s, sep), sep),
        all_trimmed(split_trim(s, sep)),
{
    lemma_split_pieces(s, sep);
    let raw = split(s, sep);
    assert forall|i: int| 0 <= i < raw.len() implies !(#[trigger] split_trim(s, sep)[i]).contains(
        sep,
    ) && is_trimmed(split_trim(s, sep)[i]) by {
        assert(!raw[i].contains(sep));
        lemma_trim_result(raw[i], sep);
    }
}

/// Parts that are trimmed and free of the separator come back unchanged when
/// they are joined, with white space behind each separator, and split again.
pub proof fn lemma_split_trim_join(parts: Seq<Seq<char>>, sep: char, pad: Seq<char>)
    requires
        parts.len() >= 1,
        all_free_of(parts, sep),
        all_trimmed(parts),
        forall|j: int| 0 <= j < pad.len() ==> is_space(pad[j]),
        !is_space(sep),
    ensures
        split_trim(join(parts, seq![sep] + pad), sep) == parts,
{
    assert(!pad.contains(sep)) by {
        if pad.contains(sep) {
            let j = choose|j: int| 0 <= j < pad.len() && pad[j] == sep;
            assert(is_space(pad[j]));
        }
    }
    lemma_split_join(parts, sep, pad);
    let back = split_trim(join(parts, seq![sep] + pad), sep);
    assert forall|i: int| 0 <= i < parts.len() implies back[i] == parts[i] by {
        assert(is_trimmed(parts[i]));
        if i == 0 {
            lemma_trim_padded(Seq::<char>::empty(), parts[0]);
            assert(Seq::<char>::empty() + parts[0] == parts[0]);
        } else {
            lemma_trim_padded(pad, parts[i]);
        }
    }
    assert(back == parts);
}

} // verus!
