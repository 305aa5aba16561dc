//! Character sequences: conversion from and to strings, splitting on a
//! separator, removal of parentheses and trimming of white space.

use vstd::prelude::*;

verus! {

/// Taken on trust of `String::push` of the standard library: it appends the
/// one character at the end of the string and changes nothing before it.
pub assume_specification[ String::push ](s: &mut String, c: char)
    ensures
        final(s)@ == old(s)@.push(c),
;

/// The views of the rows of `v`, in order.
pub open spec fn rows(v: Seq<Vec<char>>) -> Seq<Seq<char>> {
    Seq::new(v.len(), |i: int| v[i]@)
}

/// The characters of `text`, in order.
pub fn chars_of(text: &str) -> (out: Vec<char>)
    ensures
        out@ == text@,
{
    let mut out: Vec<char> = Vec::new();
    for c in it: text.chars()
        invariant
            out@ == it.seq().take(it.index() as int),
            it.seq() == text@,
    {
        out.push(c);
        assert(it.seq().take(it.index() + 1) =~= it.seq().take(it.index() as int).push(c));
    }
    assert(out@ =~= text@);
    out
}

/// The string made of the characters of `chars`, in order.
pub fn string_of(chars: &Vec<char>) -> (out: String)
    ensures
        out@ == chars@,
{
    let mut out = String::new();
    let mut i: usize = 0;
    while i < chars.len()
        invariant
            i <= chars.len(),
            out@ == chars@.take(i as int),
        decreases chars.len() - i,
    {
        out.push(chars[i]);
        assert(chars@.take(i + 1) =~= chars@.take(i as int).push(chars@[i as int]));
        i += 1;
    }
    assert(chars@.take(i as int) =~= chars@);
    out
}

/// The pieces of `s` between occurrences of `sep`, in order. There is always
/// at least one piece; two separators in a row, or one at either end, give an
/// empty piece.
pub open spec fn split(s: Seq<char>, sep: char) -> Seq<Seq<char>>
    decreases s.len(),
{
    if s.len() == 0 {
        seq![Seq::empty()]
    } else {
        let before = split(s.drop_last(), sep);
        if s.last() == sep {
            before.push(Seq::empty())
        } else {
            before.drop_last().push(before.last().push(s.last()))
        }
    }
}

/// The pieces written one after another with `sep` between neighbours.
pub open spec fn join(pieces: Seq<Seq<char>>, sep: char) -> Seq<char>
    decreases pieces.len(),
{
    if pieces.len() == 0 {
        Seq::empty()
    } else if pieces.len() == 1 {
        pieces[0]
    } else {
        join(pieces.drop_last(), sep).push(sep) + pieces.last()
    }
}

/// Every piece is free of `sep`.
pub open spec fn free_of(pieces: Seq<Seq<char>>, sep: char) -> bool {
    forall|i: int| 0 <= i < pieces.len() ==> !(#[trigger] pieces[i]).contains(sep)
}

/// Splitting always yields at least one piece.
pub proof fn lemma_split_nonempty(s: Seq<char>, sep: char)
    ensures
        split(s, sep).len() >= 1,
    decreases s.len(),
{
    if s.len() > 0 {
        lemma_split_nonempty(s.drop_last(), sep);
    }
}

/// No piece of a split contains the separator.
pub proof fn lemma_split_free(s: Seq<char>, sep: char)
    ensures
        free_of(split(s, sep), sep),
    decreases s.len(),
{
    if s.len() > 0 {
        let before = split(s.drop_last(), sep);
        lemma_split_nonempty(s.drop_last(), sep);
        lemma_split_free(s.drop_last(), sep);
        let after = split(s, sep);
        assert forall|i: int| 0 <= i < after.len() implies !(#[trigger] after[i]).contains(
            sep,
        ) by {
            if i < before.len() - 1 {
                assert(after[i] == before[i]);
            } else if s.last() == sep {
                if i == before.len() - 1 {
                    assert(after[i] == before[i]);
                }
            } else {
                let grown = before.last().push(s.last());
                assert(after[i] == grown);
                if grown.contains(sep) {
                    let k = choose|k: int| 0 <= k < grown.len() && grown[k] == sep;
                    assert(before.last()[k] == sep);
                    assert(before[before.len() - 1].contains(sep));
                }
            }
        }
    }
}

/// Joining the pieces of a split with the separator gives the text back.
pub proof fn lemma_split_join(s: Seq<char>, sep: char)
    ensures
        join(split(s, sep), sep) == s,
    decreases s.len(),
{
    if s.len() == 0 {
        assert(join(seq![Seq::<char>::empty()], sep) =~= s);
    } else {
        let rest = s.drop_last();
        let before = split(rest, sep);
        lemma_split_nonempty(rest, sep);
        lemma_split_join(rest, sep);
        if s.last() == sep {
            let after = before.push(Seq::empty());
            assert(after.drop_last() =~= before);
            assert(join(after, sep) =~= rest.push(sep));
            assert(rest.push(sep) =~= s);
        } else {
            lemma_join_grow(before, sep, s.last());
            assert(rest.push(s.last()) =~= s);
        }
    }
}

/// Appending a character to the last piece appends it to the joined text.
pub proof fn lemma_join_grow(pieces: Seq<Seq<char>>, sep: char, c: char)
    requires
        pieces.len() >= 1,
    ensures
        join(pieces.drop_last().push(pieces.last().push(c)), sep) == join(pieces, sep).push(c),
{
    let grown = pieces.drop_last().push(pieces.last().push(c));
    if pieces.len() == 1 {
        assert(join(grown, sep) =~= join(pieces, sep).push(c));
    } else {
        assert(grown.drop_last() =~= pieces.drop_last());
        assert(join(grown, sep) =~= join(pieces, sep).push(c));
    }
}

/// A text is cut into separator-free pieces in one way only: whatever pieces
/// are free of `sep` and join to `s` are the pieces of the split.
pub proof fn lemma_split_unique(s: Seq<char>, sep: char, pieces: Seq<Seq<char>>)
    requires
        pieces.len() >= 1,
        free_of(pieces, sep),
        join(pieces, sep) == s,
    ensures
        pieces == split(s, sep),
    decreases s.len(),
{
    let tail = pieces.last();
    if pieces.len() == 1 {
        lemma_split_whole(s, sep);
        assert(pieces =~= seq![s]);
    } else if tail.len() == 0 {
        let front = pieces.drop_last();
        assert(s =~= join(front, sep).push(sep));
        assert(s.drop_last() =~= join(front, sep));
        assert(free_of(front, sep)) by {
            assert forall|i: int| 0 <= i < front.len() implies !(#[trigger] front[i]).contains(
                sep,
            ) by {
                assert(front[i] == pieces[i]);
            }
        }
        lemma_split_unique(s.drop_last(), sep, front);
        assert(tail =~= Seq::<char>::empty());
        assert(pieces =~= front.push(tail));
        assert(s.last() == sep);
    } else {
        let c = tail.last();
        let shorter = pieces.drop_last().push(tail.drop_last());
        assert(tail.contains(c));
        assert(pieces[pieces.len() - 1] == tail);
        assert(c != sep);
        assert(shorter.drop_last() =~= pieces.drop_last());
        assert(shorter.last().push(c) =~= tail);
        assert(pieces =~= shorter.drop_last().push(shorter.last().push(c)));
        lemma_join_grow(shorter, sep, c);
        assert(join(shorter, sep).push(c) == s);
        assert(s.drop_last() =~= join(shorter, sep));
        assert(free_of(shorter, sep)) by {
            assert forall|i: int| 0 <= i < shorter.len() implies !(#[trigger] shorter[i]).contains(
                sep,
            ) by {
                if i < shorter.len() - 1 {
                    assert(shorter[i] == pieces[i]);
                } else if shorter[i].contains(sep) {
                    let k = choose|k: int| 0 <= k < shorter[i].len() && shorter[i][k] == sep;
                    assert(tail[k] == sep);
                }
            }
        }
        lemma_split_unique(s.drop_last(), sep, shorter);
    }
}

/// A text that holds no separator is its own single piece.
pub proof fn lemma_split_whole(s: Seq<char>, sep: char)
    requires
        !s.contains(sep),
    ensures
        split(s, sep) == seq![s],
    decreases s.len(),
{
    if s.len() == 0 {
        assert(s =~= Seq::<char>::empty());
    } else {
        let rest = s.drop_last();
        assert(!rest.contains(sep)) by {
            if rest.contains(sep) {
                let k = choose|k: int| 0 <= k < rest.len() && rest[k] == sep;
                assert(s[k] == sep);
            }
        }
        lemma_split_whole(rest, sep);
        assert(s[s.len() - 1] == s.last());
        assert(s.last() != sep);
        assert(rest.push(s.last()) =~= s);
        let before = seq![rest];
        assert(before.drop_last() =~= Seq::<Seq<char>>::empty());
        assert(before.last() == rest);
        assert(before.drop_last().push(before.last().push(s.last())) =~= seq![s]);
    }
}

/// Cuts `s` at every occurrence of `sep`.
pub fn split_on(s: &Vec<char>, sep: char) -> (pieces: Vec<Vec<char>>)
    ensures
        rows(pieces@) == split(s@, sep),
{
    let mut done: Vec<Vec<char>> = Vec::new();
    let mut current: Vec<char> = Vec::new();
    let mut i: usize = 0;
    assert(rows(done@).push(current@) =~= split(s@.take(0), sep));
    while i < s.len()
        invariant
            i <= s.len(),
            rows(done@).push(current@) == split(s@.take(i as int), sep),
        decreases s.len() - i,
    {
        let c = s[i];
        proof {
            assert(s@.take(i + 1).drop_last() =~= s@.take(i as int));
            assert(s@.take(i + 1).last() == c);
        }
        let ghost before = rows(done@).push(current@);
        if c == sep {
            done.push(current);
            current = Vec::new();
            assert(rows(done@).push(current@) =~= before.push(Seq::empty()));
        } else {
            current.push(c);
            assert(rows(done@).push(current@) =~= before.drop_last().push(before.last().push(c)));
        }
        i += 1;
    }
    assert(s@.take(i as int) =~= s@);
    done.push(current);
    assert(rows(done@) =~= split(s@, sep));
    done
}

/// Whether `c` is an opening or a closing round bracket.
pub open spec fn is_paren(c: char) -> bool {
    c == '(' || c == ')'
}

/// The predicate that keeps every character but round brackets.
pub open spec fn not_paren() -> spec_fn(char) -> bool {
    |c: char| !is_paren(c)
}

/// `s` without its round brackets, wherever they stand.
pub open spec fn strip_parens(s: Seq<char>) -> Seq<char> {
    s.filter(not_paren())
}

/// Removes every round bracket from `s`.
pub fn without_parens(s: &Vec<char>) -> (out: Vec<char>)
    ensures
        out@ == strip_parens(s@),
{
    let mut out: Vec<char> = Vec::new();
    let mut i: usize = 0;
    assert(s@.take(0).filter(not_paren()) =~= Seq::<char>::empty()) by {
        s@.take(0).lemma_filter_len(not_paren());
    }
    while i < s.len()
        invariant
            i <= s.len(),
            out@ == strip_parens(s@.take(i as int)),
        decreases s.len() - i,
    {
        let c = s[i];
        proof {
            assert(s@.take(i + 1) =~= s@.take(i as int).push(c));
            s@.take(i as int).lemma_filter_push(c, not_paren());
        }
        if c != '(' && c != ')' {
            out.push(c);
        }
        i += 1;
    }
    assert(s@.take(i as int) =~= s@);
    out
}

/// White space as Unicode's `White_Space` property lists it.
pub open spec fn is_space(c: char) -> bool {
    ||| '\u{9}' <= c <= '\u{D}'
    ||| c == ' '
    ||| c == '\u{85}'
    ||| c == '\u{A0}'
    ||| c == '\u{1680}'
    ||| '\u{2000}' <= c <= '\u{200A}'
    ||| c == '\u{2028}'
    ||| c == '\u{2029}'
    ||| c == '\u{202F}'
    ||| c == '\u{205F}'
    ||| c == '\u{3000}'
}

/// Decides `is_space`.
pub fn space(c: char) -> (r: bool)
    ensures
        r == is_space(c),
{
    ('\u{9}' <= c && c <= '\u{D}') || c == ' ' || c == '\u{85}' || c == '\u{A0}' || c == '\u{1680}'
        || ('\u{2000}' <= c && c <= '\u{200A}') || c == '\u{2028}' || c == '\u{2029}' || c
        == '\u{202F}' || c == '\u{205F}' || c == '\u{3000}'
}

/// `s` without the white space at its start.
pub open spec fn trim_start(s: Seq<char>) -> Seq<char>
    decreases s.len(),
{
    if s.len() > 0 && is_space(s.first()) {
        trim_start(s.drop_first())
    } else {
        s
    }
}

/// `s` without the white space at its end.
pub open spec fn trim_end(s: Seq<char>) -> Seq<char>
    decreases s.len(),
{
    if s.len() > 0 && is_space(s.last()) {
        trim_end(s.drop_last())
    } else {
        s
    }
}

/// `s` without the white space at either end.
pub open spec fn trim(s: Seq<char>) -> Seq<char> {
    trim_end(trim_start(s))
}

/// Skipping a run of white space at the start does not change what
/// `trim_start` gives.
pub proof fn lemma_trim_start_skip(s: Seq<char>, n: int)
    requires
        0 <= n <= s.len(),
        forall|i: int| 0 <= i < n ==> is_space(#[trigger] s[i]),
    ensures
        trim_start(s) == trim_start(s.skip(n)),
    decreases n,
{
    if n == 0 {
        assert(s.skip(0) =~= s);
    } else {
        assert(is_space(s[0]));
        let rest = s.drop_first();
        assert forall|i: int| 0 <= i < n - 1 implies is_space(#[trigger] rest[i]) by {
            assert(rest[i] == s[i + 1]);
        }
        lemma_trim_start_skip(rest, n - 1);
        assert(rest.skip(n - 1) =~= s.skip(n));
    }
}

/// Dropping a run of white space at the end does not change what `trim_end`
/// gives.
pub proof fn lemma_trim_end_take(s: Seq<char>, n: int)
    requires
        0 <= n <= s.len(),
        forall|i: int| n <= i < s.len() ==> is_space(#[trigger] s[i]),
    ensures
        trim_end(s) == trim_end(s.take(n)),
    decreases s.len() - n,
{
    if n == s.len() {
        assert(s.take(n) =~= s);
    } else {
        assert(is_space(s[s.len() - 1]));
        let rest = s.drop_last();
        lemma_trim_end_take(rest, n);
        assert(rest.take(n) =~= s.take(n));
    }
}

/// Length of the run of white space at the start of `s`.
pub open spec fn lead(s: Seq<char>) -> int
    decreases s.len(),
{
    if s.len() > 0 && is_space(s.first()) {
        1 + lead(s.drop_first())
    } else {
        0
    }
}

/// Length of `s` up to the run of white space at its end.
pub open spec fn hold(s: Seq<char>) -> int
    decreases s.len(),
{
    if s.len() > 0 && is_space(s.last()) {
        hold(s.drop_last())
    } else {
        s.len() as int
    }
}

/// `lead` counts exactly the white space before the first other character.
pub proof fn lemma_lead(s: Seq<char>)
    ensures
        0 <= lead(s) <= s.len(),
        forall|i: int| 0 <= i < lead(s) ==> is_space(#[trigger] s[i]),
        lead(s) < s.len() ==> !is_space(s[lead(s)]),
    decreases s.len(),
{
    if s.len() > 0 && is_space(s.first()) {
        let rest = s.drop_first();
        lemma_lead(rest);
        assert forall|i: int| 0 <= i < lead(s) implies is_space(#[trigger] s[i]) by {
            if i > 0 {
                assert(rest[i - 1] == s[i]);
            }
        }
        if lead(s) < s.len() {
            assert(rest[lead(rest)] == s[lead(s)]);
        }
    }
}

/// `hold` ends exactly after the last character that is no white space.
pub proof fn lemma_hold(s: Seq<char>)
    ensures
        0 <= hold(s) <= s.len(),
        forall|i: int| hold(s) <= i < s.len() ==> is_space(#[trigger] s[i]),
        hold(s) > 0 ==> !is_space(s[hold(s) - 1]),
    decreases s.len(),
{
    if s.len() > 0 && is_space(s.last()) {
        let rest = s.drop_last();
        lemma_hold(rest);
        assert forall|i: int| hold(s) <= i < s.len() implies is_space(#[trigger] s[i]) by {
            if i < s.len() - 1 {
                assert(rest[i] == s[i]);
            }
        }
        if hold(s) > 0 {
            assert(rest[hold(rest) - 1] == s[hold(s) - 1]);
        }
    }
}

/// What trimming leaves neither starts nor ends with white space, and it is
/// the stretch of `s` between the white space at its two ends.
pub proof fn lemma_trim_is_core(s: Seq<char>)
    ensures
        trim(s).len() > 0 ==> !is_space(trim(s).first()) && !is_space(trim(s).last()),
        exists|a: int, b: int|
            0 <= a <= b <= s.len() && trim(s) == s.subrange(a, b) && (forall|i: int|
                0 <= i < a || b <= i < s.len() ==> is_space(#[trigger] s[i])),
{
    let a = lead(s);
    lemma_lead(s);
    lemma_trim_start_skip(s, a);
    let mid = s.skip(a);
    assert(trim_start(mid) == mid);
    let b = hold(mid);
    lemma_hold(mid);
    lemma_trim_end_take(mid, b);
    let core = mid.take(b);
    assert(trim_end(core) == core);
    assert(core =~= s.subrange(a, a + b));
    if core.len() > 0 {
        assert(core.first() == s[a]);
        assert(core.last() == mid[b - 1]);
    }
    assert forall|i: int| 0 <= i < a || a + b <= i < s.len() implies is_space(
        #[trigger] s[i],
    ) by {
        if i >= a + b {
            assert(mid[i - a] == s[i]);
        }
    }
}

/// Removes the white space at both ends of `s`.
pub fn trimmed(s: &Vec<char>) -> (out: Vec<char>)
    ensures
        out@ == trim(s@),
{
    let mut a: usize = 0;
    while a < s.len() && space(s[a])
        invariant
            a <= s.len(),
            forall|i: int| 0 <= i < a ==> is_space(#[trigger] s@[i]),
        decreases s.len() - a,
    {
        a += 1;
    }
    let mut b: usize = s.len();
    while b > a && space(s[b - 1])
        invariant
            a <= b <= s.len(),
            forall|i: int| b <= i < s.len() ==> is_space(#[trigger] s@[i]),
        decreases b,
    {
        b -= 1;
    }
    let mut out: Vec<char> = Vec::new();
    let mut i: usize = a;
    while i < b
        invariant
            a <= i <= b <= s.len(),
            out@ == s@.subrange(a as int, i as int),
        decreases b - i,
    {
        out.push(s[i]);
        assert(s@.subrange(a as int, i + 1) =~= s@.subrange(a as int, i as int).push(s@[i as int]));
        i += 1;
    }
    proof {
        let mid = s@.skip(a as int);
        lemma_trim_start_skip(s@, a as int);
        assert(trim_start(mid) == mid) by {
            if mid.len() > 0 {
                assert(mid.first() == s@[a as int]);
            }
        }
        assert forall|i: int| b - a <= i < mid.len() implies is_space(#[trigger] mid[i]) by {
            assert(mid[i] == s@[i + a]);
        }
        lemma_trim_end_take(mid, b - a);
        let core = mid.take(b - a);
        assert(trim_end(core) == core) by {
            if core.len() > 0 {
                assert(core.last() == s@[b - 1]);
            }
        }
        assert(core =~= s@.subrange(a as int, b as int));
    }
    out
}

} // verus!
