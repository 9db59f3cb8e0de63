//! Character-level building blocks: white space, trimming, splitting and
//! joining on a separator. Everything here works on a vector of `char`s and
//! is specified over `Seq<char>`.

use vstd::prelude::*;

verus! {

/// The characters of `s`, in order.
pub fn chars_of(s: &str) -> (v: Vec<char>)
    ensures
        v@ == s@,
{
    let mut v: Vec<char> = Vec::new();
    for c in it: s.chars()
        invariant
            v@ == it.seq().take(it.index() as int),
            it.seq() == s@,
    {
        v.push(c);
    }
    v
}

/// Whether two texts hold the same characters.
pub fn same_text(a: &str, b: &str) -> (r: bool)
    ensures
        r == (a@ == b@),
{
    let x = chars_of(a);
    let y = chars_of(b);
    if x.len() != y.len() {
        return false;
    }
    let mut i: usize = 0;
    while i < x.len()
        invariant
            x@ == a@,
            y@ == b@,
            i <= x@.len() == y@.len(),
            x@.take(i as int) == y@.take(i as int),
        decreases x@.len() - i,
    {
        if x[i] != y[i] {
            return false;
        }
        assert(x@.take(i + 1) == x@.take(i as int).push(x@[i as int]));
        assert(y@.take(i + 1) == y@.take(i as int).push(y@[i as int]));
        i = i + 1;
    }
    assert(x@ == x@.take(x@.len() as int));
    assert(y@ == y@.take(y@.len() as int));
    true
}

/// Whether `s` begins with `prefix`.
pub fn starts_with(s: &str, prefix: &str) -> (r: bool)
    ensures
        r == prefix@.is_prefix_of(s@),
{
    let x = chars_of(s);
    let p = chars_of(prefix);
    if x.len() < p.len() {
        return false;
    }
    let mut i: usize = 0;
    while i < p.len()
        invariant
            x@ == s@,
            p@ == prefix@,
            i <= p@.len() <= x@.len(),
            x@.take(i as int) == p@.take(i as int),
        decreases p@.len() - i,
    {
        if x[i] != p[i] {
            assert(x@.subrange(0, p@.len() as int)[i as int] != p@[i as int]);
            return false;
        }
        assert(x@.take(i + 1) == x@.take(i as int).push(x@[i as int]));
        assert(p@.take(i + 1) == p@.take(i as int).push(p@[i as int]));
        i = i + 1;
    }
    assert(p@ == p@.take(p@.len() as int));
    assert(x@.take(p@.len() as int) == x@.subrange(0, p@.len() as int));
    true
}

/// Whether `c` has the Unicode property `White_Space`.
pub open spec fn is_space(c: char) -> bool {
    let n = c as u32;
    ||| 0x09 <= n <= 0x0d
    ||| n == 0x20
    ||| n == 0x85
    ||| n == 0xa0
    ||| n == 0x1680
    ||| 0x2000 <= n <= 0x200a
    ||| n == 0x2028
    ||| n == 0x2029
    ||| n == 0x202f
    ||| n == 0x205f
    ||| n == 0x3000
}

/// Decides [`is_space`].
pub fn is_space_char(c: char) -> (r: bool)
    ensures
        r == is_space(c),
{
    let n: u32 = c as u32;
    (0x09 <= n && n <= 0x0d) || n == 0x20 || n == 0x85 || n == 0xa0 || n == 0x1680 || (0x2000 <= n
        && n <= 0x200a) || n == 0x2028 || n == 0x2029 || n == 0x202f || n == 0x205f || n == 0x3000
}

/// `s` without its leading white space.
pub open spec fn trim_start(s: Seq<char>) -> Seq<char>
    decreases s.len(),
{
    if s.len() > 0 && is_space(s.first()) {
        trim_start(s.drop_first())
    } else {
        s
    }
}

/// `s` without its trailing white space.
pub open spec fn trim_end(s: Seq<char>) -> Seq<char>
    decreases s.len(),
{
    if s.len() > 0 && is_space(s.last()) {
        trim_end(s.drop_last())
    } else {
        s
    }
}

/// `s` without the white space around it.
pub open spec fn trim(s: Seq<char>) -> Seq<char> {
    trim_end(trim_start(s))
}

/// What is left of `s` without its leading white space does not begin
/// with white space.
pub proof fn lemma_trim_start(s: Seq<char>)
    ensures
        trim_start(s).len() > 0 ==> !is_space(trim_start(s).first()),
    decreases s.len(),
{
    if s.len() > 0 && is_space(s.first()) {
        lemma_trim_start(s.drop_first());
    }
}

/// What is left of `s` without its trailing white space is a beginning of
/// `s` that does not end with white space.
pub proof fn lemma_trim_end(s: Seq<char>)
    ensures
        trim_end(s).is_prefix_of(s),
        trim_end(s).len() > 0 ==> !is_space(trim_end(s).last()),
    decreases s.len(),
{
    if s.len() > 0 && is_space(s.last()) {
        lemma_trim_end(s.drop_last());
    }
}

/// A trimmed text neither begins nor ends with white space.
pub proof fn lemma_trim(s: Seq<char>)
    ensures
        trim(s).len() > 0 ==> !is_space(trim(s).first()) && !is_space(trim(s).last()),
{
    lemma_trim_start(s);
    lemma_trim_end(trim_start(s));
}

/// Trims the part `[from, to)` of `v`: the bounds of what is left.
pub fn trim_range(v: &Vec<char>, from: usize, to: usize) -> (r: (usize, usize))
    requires
        from <= to <= v@.len(),
    ensures
        from <= r.0 <= r.1 <= to,
        v@.subrange(r.0 as int, r.1 as int) == trim(v@.subrange(from as int, to as int)),
{
    let mut a: usize = from;
    while a < to && is_space_char(v[a])
        invariant
            from <= a <= to <= v@.len(),
            trim_start(v@.subrange(a as int, to as int)) == trim_start(
                v@.subrange(from as int, to as int),
            ),
        decreases to - a,
    {
        assert(v@.subrange(a as int, to as int).drop_first() == v@.subrange(a + 1, to as int));
        a = a + 1;
    }
    let mut b: usize = to;
    while a < b && is_space_char(v[b - 1])
        invariant
            a <= b <= to <= v@.len(),
            trim_end(v@.subrange(a as int, b as int)) == trim_end(
                v@.subrange(a as int, to as int),
            ),
        decreases b - a,
    {
        assert(v@.subrange(a as int, b as int).drop_last() == v@.subrange(a as int, b - 1));
        b = b - 1;
    }
    (a, b)
}

/// The pieces of `s` between occurrences of `sep`: one piece more than there
/// are separators, each free of `sep`, empty pieces included.
pub open spec fn split(s: Seq<char>, sep: char) -> Seq<Seq<char>>
    decreases s.len(),
{
    if s.len() == 0 {
        seq![Seq::empty()]
    } else {
        let before = split(s.drop_last(), sep);
        if s.last() == sep {
            before.push(Seq::empty())
        } else {
            before.update(before.len() - 1, before.last().push(s.last()))
        }
    }
}

/// The pieces laid end to end with `sep` between neighbours.
pub open spec fn join(pieces: Seq<Seq<char>>, sep: char) -> Seq<char>
    decreases pieces.len(),
{
    if pieces.len() == 0 {
        Seq::empty()
    } else if pieces.len() == 1 {
        pieces[0]
    } else {
        join(pieces.drop_last(), sep).push(sep) + pieces.last()
    }
}

/// Splitting never yields an empty list.
pub proof fn lemma_split_nonempty(s: Seq<char>, sep: char)
    ensures
        split(s, sep).len() >= 1,
    decreases s.len(),
{
    if s.len() > 0 {
        lemma_split_nonempty(s.drop_last(), sep);
    }
}

/// No character of `s` is `c`.
pub open spec fn free_of(s: Seq<char>, c: char) -> bool {
    forall|i: int| 0 <= i < s.len() ==> s[i] != c
}

/// Trimming leaves alone a text that neither begins nor ends with white
/// space.
pub proof fn lemma_trim_unchanged(s: Seq<char>)
    requires
        s.len() > 0 ==> !is_space(s.first()) && !is_space(s.last()),
    ensures
        trim(s) == s,
{
}

/// A text without the separator is one piece.
pub proof fn lemma_split_plain(s: Seq<char>, sep: char)
    requires
        free_of(s, sep),
    ensures
        split(s, sep) == seq![s],
    decreases s.len(),
{
    if s.len() > 0 {
        lemma_split_plain(s.drop_last(), sep);
        assert(s.drop_last().push(s.last()) == s);
        assert(seq![s.drop_last()].update(0, s) == seq![s]);
    } else {
        assert(s == Seq::<char>::empty());
    }
}

/// Text without the separator, put after `a`, lengthens the last piece of
/// `a` and changes no other.
pub proof fn lemma_split_append(a: Seq<char>, b: Seq<char>, sep: char)
    requires
        free_of(b, sep),
    ensures
        split(a, sep).len() >= 1,
        split(a + b, sep) == split(a, sep).update(
            split(a, sep).len() - 1,
            split(a, sep).last() + b,
        ),
    decreases b.len(),
{
    lemma_split_nonempty(a, sep);
    let pieces = split(a, sep);
    if b.len() == 0 {
        assert(a + b == a);
        assert(pieces.last() + b == pieces.last());
        assert(pieces.update(pieces.len() - 1, pieces.last()) == pieces);
    } else {
        lemma_split_append(a, b.drop_last(), sep);
        assert((a + b).drop_last() == a + b.drop_last());
        assert((a + b).last() == b.last());
        assert((pieces.last() + b.drop_last()).push(b.last()) == pieces.last() + b);
        let before = split(a + b.drop_last(), sep);
        assert(before.update(before.len() - 1, before.last().push(b.last())) == pieces.update(
            pieces.len() - 1,
            pieces.last() + b,
        ));
    }
}

/// Splitting undoes joining, where no piece holds the separator.
pub proof fn lemma_split_join(pieces: Seq<Seq<char>>, sep: char)
    requires
        pieces.len() >= 1,
        forall|i: int| 0 <= i < pieces.len() ==> free_of(#[trigger] pieces[i], sep),
    ensures
        split(join(pieces, sep), sep) == pieces,
    decreases pieces.len(),
{
    if pieces.len() == 1 {
        lemma_split_plain(pieces[0], sep);
        assert(seq![pieces[0]] == pieces);
    } else {
        let init = pieces.drop_last();
        lemma_split_join(init, sep);
        let head = join(init, sep).push(sep);
        assert(head.drop_last() == join(init, sep));
        assert(split(head, sep) == init.push(Seq::empty()));
        lemma_split_append(head, pieces.last(), sep);
        assert(Seq::<char>::empty() + pieces.last() == pieces.last());
        assert(init.push(Seq::empty()).update(init.len() as int, pieces.last()) == pieces);
    }
}

/// No piece that splitting yields holds the separator.
pub proof fn lemma_split_pieces(s: Seq<char>, sep: char)
    ensures
        forall|i: int| 0 <= i < split(s, sep).len() ==> free_of(#[trigger] split(s, sep)[i], sep),
    decreases s.len(),
{
    if s.len() > 0 {
        lemma_split_pieces(s.drop_last(), sep);
        lemma_split_nonempty(s.drop_last(), sep);
    }
}

/// Joining undoes splitting.
pub proof fn lemma_join_split(s: Seq<char>, sep: char)
    ensures
        join(split(s, sep), sep) == s,
    decreases s.len(),
{
    if s.len() == 0 {
        assert(s == Seq::<char>::empty());
    } else {
        let before = split(s.drop_last(), sep);
        lemma_join_split(s.drop_last(), sep);
        lemma_split_nonempty(s.drop_last(), sep);
        assert(s.drop_last().push(s.last()) == s);
        if s.last() == sep {
            let pieces = before.push(Seq::empty());
            assert(pieces.drop_last() == before);
            assert(join(before, sep).push(sep) + Seq::<char>::empty() == join(before, sep).push(
                sep,
            ));
        } else {
            let pieces = before.update(before.len() - 1, before.last().push(s.last()));
            if before.len() > 1 {
                assert(pieces.drop_last() == before.drop_last());
                let head = join(before.drop_last(), sep).push(sep);
                assert(head + before.last().push(s.last()) == (head + before.last()).push(
                    s.last(),
                ));
            }
        }
    }
}

/// A joined text begins as its first piece does and ends as its last piece
/// does, where these two are not empty.
pub proof fn lemma_join_ends(pieces: Seq<Seq<char>>, sep: char)
    requires
        pieces.len() >= 1,
        pieces.first().len() > 0,
        pieces.last().len() > 0,
    ensures
        join(pieces, sep).len() > 0,
        join(pieces, sep).first() == pieces.first().first(),
        join(pieces, sep).last() == pieces.last().last(),
{
    if pieces.len() > 1 {
        lemma_join_begins(pieces.drop_last(), sep);
    }
}

/// A joined text begins as its first piece does, where that is not empty.
pub proof fn lemma_join_begins(pieces: Seq<Seq<char>>, sep: char)
    requires
        pieces.len() >= 1,
        pieces.first().len() > 0,
    ensures
        join(pieces, sep).len() > 0,
        join(pieces, sep).first() == pieces.first().first(),
    decreases pieces.len(),
{
    if pieces.len() > 1 {
        lemma_join_begins(pieces.drop_last(), sep);
    }
}

/// Splits the part `[from, to)` of `v` on `sep`: the bounds of each piece, in
/// order.
pub fn split_range(v: &Vec<char>, from: usize, to: usize, sep: char) -> (r: Vec<(usize, usize)>)
    requires
        from <= to <= v@.len(),
    ensures
        r@.len() == split(v@.subrange(from as int, to as int), sep).len(),
        forall|j: int|
            0 <= j < r@.len() ==> from <= (#[trigger] r@[j]).0 <= r@[j].1 <= to && v@.subrange(
                r@[j].0 as int,
                r@[j].1 as int,
            ) == split(v@.subrange(from as int, to as int), sep)[j],
{
    let mut r: Vec<(usize, usize)> = Vec::new();
    let mut start: usize = from;
    let mut i: usize = from;
    while i < to
        invariant
            from <= start <= i <= to <= v@.len(),
            r@.len() + 1 == split(v@.subrange(from as int, i as int), sep).len(),
            split(v@.subrange(from as int, i as int), sep).last() == v@.subrange(
                start as int,
                i as int,
            ),
            forall|j: int|
                0 <= j < r@.len() ==> from <= (#[trigger] r@[j]).0 <= r@[j].1 <= to && v@.subrange(
                    r@[j].0 as int,
                    r@[j].1 as int,
                ) == split(v@.subrange(from as int, i as int), sep)[j],
        decreases to - i,
    {
        proof {
            let next = v@.subrange(from as int, i + 1);
            assert(next.drop_last() == v@.subrange(from as int, i as int));
            assert(next.last() == v@[i as int]);
            lemma_split_nonempty(next.drop_last(), sep);
            assert(v@.subrange(start as int, i as int).push(v@[i as int]) == v@.subrange(
                start as int,
                i + 1,
            ));
        }
        if v[i] == sep {
            r.push((start, i));
            start = i + 1;
        }
        i = i + 1;
    }
    r.push((start, to));
    r
}

} // verus!
