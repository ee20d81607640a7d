//! Pieces of text: where a character is, and what is left of a piece without its
//! edges. A piece is a range of characters, from one position up to another.

use vstd::prelude::*;

verus! {

/// A kind of character that is taken off the edges of a piece.
#[derive(Clone, Copy)]
pub enum Edge {
    /// Unicode white space.
    Space,
    /// A double quote.
    Quote,
}

/// Whether a character is Unicode white space.
pub open spec fn is_space(c: char) -> bool {
    ||| '\u{9}' <= c <= '\u{d}'
    ||| c == ' '
    ||| c == '\u{85}'
    ||| c == '\u{a0}'
    ||| c == '\u{1680}'
    ||| '\u{2000}' <= c <= '\u{200a}'
    ||| c == '\u{2028}'
    ||| c == '\u{2029}'
    ||| c == '\u{202f}'
    ||| c == '\u{205f}'
    ||| c == '\u{3000}'
}

impl Edge {
    /// Whether `c` is of the kind.
    pub open spec fn covers(self, c: char) -> bool {
        match self {
            Edge::Space => is_space(c),
            Edge::Quote => c == '"',
        }
    }

    /// Whether `c` is of the kind.
    pub fn has(self, c: char) -> (r: bool)
        ensures
            r == self.covers(c),
    {
        match self {
            Edge::Space => {
                ('\u{9}' <= c && c <= '\u{d}') || c == ' ' || c == '\u{85}' || c == '\u{a0}' || c
                    == '\u{1680}' || ('\u{2000}' <= c && c <= '\u{200a}') || c == '\u{2028}' || c
                    == '\u{2029}' || c == '\u{202f}' || c == '\u{205f}' || c == '\u{3000}'
            },
            Edge::Quote => c == '"',
        }
    }
}

/// The characters of a text.
pub(crate) fn chars_of(text: &str) -> (v: Vec<char>)
    ensures
        v@ == text@,
{
    let mut v: Vec<char> = Vec::new();
    for c in it: text.chars()
        invariant
            v@.len() == it.index(),
            forall|i: int| 0 <= i < v@.len() ==> v@[i] == it.seq()[i],
    {
        v.push(c);
    }
    v
}

/// The first position of `c`, or the length where it does not occur.
pub open spec fn find(s: Seq<char>, c: char) -> nat
    decreases s.len(),
{
    if s.len() == 0 || s[0] == c {
        0
    } else {
        1 + find(s.skip(1), c)
    }
}

/// What comes before the first `c`: everything, where there is none.
pub open spec fn before(s: Seq<char>, c: char) -> Seq<char> {
    s.take(find(s, c) as int)
}

/// What comes after the first `c`: nothing, where there is none.
pub open spec fn after(s: Seq<char>, c: char) -> Seq<char> {
    if find(s, c) < s.len() {
        s.skip(find(s, c) as int + 1)
    } else {
        Seq::empty()
    }
}

/// How many characters at the start of `s` are edge.
pub open spec fn leading(s: Seq<char>, edge: Edge) -> nat
    decreases s.len(),
{
    if s.len() == 0 || !edge.covers(s[0]) {
        0
    } else {
        1 + leading(s.skip(1), edge)
    }
}

/// How many characters at the end of `s` are edge.
pub open spec fn trailing(s: Seq<char>, edge: Edge) -> nat
    decreases s.len(),
{
    if s.len() == 0 || !edge.covers(s.last()) {
        0
    } else {
        1 + trailing(s.drop_last(), edge)
    }
}

/// `s` without the edge at its start.
pub open spec fn trim_start(s: Seq<char>, edge: Edge) -> Seq<char> {
    s.skip(leading(s, edge) as int)
}

/// `s` without the edges at its start and at its end.
pub open spec fn trim(s: Seq<char>, edge: Edge) -> Seq<char> {
    let t = trim_start(s, edge);
    t.take(t.len() - trailing(t, edge))
}

proof fn lemma_find(s: Seq<char>, c: char, k: nat)
    requires
        k <= s.len(),
        forall|j: int| 0 <= j < k ==> s[j] != c,
        k < s.len() ==> s[k as int] == c,
    ensures
        find(s, c) == k,
    decreases s.len(),
{
    if k > 0 {
        assert(forall|j: int| 0 <= j < k - 1 ==> s.skip(1)[j] != c);
        lemma_find(s.skip(1), c, (k - 1) as nat);
    }
}

proof fn lemma_leading(s: Seq<char>, edge: Edge, k: nat)
    requires
        k <= s.len(),
        forall|j: int| 0 <= j < k ==> edge.covers(#[trigger] s[j]),
        k < s.len() ==> !edge.covers(s[k as int]),
    ensures
        leading(s, edge) == k,
    decreases s.len(),
{
    if k > 0 {
        assert(forall|j: int| 0 <= j < k - 1 ==> edge.covers(#[trigger] s.skip(1)[j]));
        lemma_leading(s.skip(1), edge, (k - 1) as nat);
    }
}

proof fn lemma_trailing(s: Seq<char>, edge: Edge, k: nat)
    requires
        k <= s.len(),
        forall|j: int| s.len() - k <= j < s.len() ==> edge.covers(#[trigger] s[j]),
        k < s.len() ==> !edge.covers(s[s.len() - k - 1]),
    ensures
        trailing(s, edge) == k,
    decreases s.len(),
{
    if k > 0 {
        lemma_trailing(s.drop_last(), edge, (k - 1) as nat);
    }
}

/// Where a text is cut: at the first `c`, if there is one.
pub proof fn a_text_is_cut_at_the_first(a: Seq<char>, c: char, b: Seq<char>)
    requires
        !a.contains(c),
    ensures
        before(a + seq![c] + b, c) == a,
        after(a + seq![c] + b, c) == b,
        find(a + seq![c] + b, c) == a.len(),
        before(a, c) == a,
        after(a, c) == Seq::<char>::empty(),
        find(a, c) == a.len(),
{
    let s = a + seq![c] + b;
    assert forall|j: int| 0 <= j < a.len() implies s[j] != c && a[j] != c by {
        assert(a.contains(a[j]));
    }
    lemma_find(s, c, a.len());
    lemma_find(a, c, a.len());
    assert(s.take(a.len() as int) =~= a);
    assert(s.skip(a.len() as int + 1) =~= b);
    assert(a.take(a.len() as int) =~= a);
}

/// A piece loses its edges, all of them and nothing else.
pub proof fn a_piece_loses_its_edges(a: Seq<char>, m: Seq<char>, b: Seq<char>, edge: Edge)
    requires
        forall|i: int| 0 <= i < a.len() ==> edge.covers(#[trigger] a[i]),
        forall|i: int| 0 <= i < b.len() ==> edge.covers(#[trigger] b[i]),
        m.len() > 0 ==> !edge.covers(m[0]) && !edge.covers(m.last()),
    ensures
        trim(a + m + b, edge) == m,
{
    let s = a + m + b;
    if m.len() > 0 {
        assert(s[a.len() as int] == m[0]);
        lemma_leading(s, edge, a.len());
        let t = trim_start(s, edge);
        assert(t =~= m + b);
        assert(t[t.len() - b.len() - 1] == m.last());
        lemma_trailing(t, edge, b.len());
        assert(t.take(t.len() - b.len()) =~= m);
    } else {
        lemma_leading(s, edge, s.len());
    }
}

/// A piece loses the edge at its start, all of it and nothing else.
pub proof fn a_piece_loses_its_start(a: Seq<char>, m: Seq<char>, edge: Edge)
    requires
        forall|i: int| 0 <= i < a.len() ==> edge.covers(#[trigger] a[i]),
        m.len() > 0 ==> !edge.covers(m[0]),
    ensures
        trim_start(a + m, edge) == m,
{
    let s = a + m;
    if m.len() > 0 {
        assert(s[a.len() as int] == m[0]);
    }
    lemma_leading(s, edge, a.len());
    assert(s.skip(a.len() as int) =~= m);
}

/// What a piece loses at its start is edge, and the rest begins with none.
pub proof fn what_is_lost_at_the_start_is_edge(s: Seq<char>, edge: Edge) -> (a: Seq<char>)
    ensures
        s == a + trim_start(s, edge),
        forall|i: int| 0 <= i < a.len() ==> edge.covers(#[trigger] a[i]),
        trim_start(s, edge).len() > 0 ==> !edge.covers(trim_start(s, edge)[0]),
    decreases s.len(),
{
    if s.len() == 0 || !edge.covers(s[0]) {
        assert(s.skip(0) =~= s);
        Seq::empty()
    } else {
        let a = what_is_lost_at_the_start_is_edge(s.skip(1), edge);
        assert(trim_start(s, edge) =~= trim_start(s.skip(1), edge)) by {
            lemma_leading_bound(s.skip(1), edge);
        }
        let r = seq![s[0]] + a;
        assert(s =~= seq![s[0]] + s.skip(1));
        assert(s =~= r + trim_start(s, edge));
        r
    }
}

proof fn lemma_leading_bound(s: Seq<char>, edge: Edge)
    ensures
        leading(s, edge) <= s.len(),
    decreases s.len(),
{
    if s.len() > 0 && edge.covers(s[0]) {
        lemma_leading_bound(s.skip(1), edge);
    }
}

/// The characters that count as space are those that Unicode calls white space;
/// a quote is the double quote.
pub proof fn edges_are_white_space_and_quotes(c: char)
    ensures
        ({
            let n = c as u32;
            Edge::Space.covers(c) <==> {
                ||| 0x9 <= n <= 0xd
                ||| n == 0x20
                ||| n == 0x85
                ||| n == 0xa0
                ||| n == 0x1680
                ||| 0x2000 <= n <= 0x200a
                ||| n == 0x2028
                ||| n == 0x2029
                ||| n == 0x202f
                ||| n == 0x205f
                ||| n == 0x3000
            }
        }),
        Edge::Quote.covers(c) <==> c as u32 == 0x22,
{
}

/// The position of the first `c` in a piece, or the end of the piece.
pub(crate) fn find_in(s: &Vec<char>, from: usize, to: usize, c: char) -> (r: usize)
    requires
        from <= to <= s@.len(),
    ensures
        from <= r <= to,
        r == from + find(s@.subrange(from as int, to as int), c),
        r < to ==> s@[r as int] == c,
{
    let mut i: usize = from;
    while i < to && s[i] != c
        invariant
            from <= i <= to <= s@.len(),
            forall|j: int| from <= j < i ==> s@[j] != c,
        decreases to - i,
    {
        i = i + 1;
    }
    proof {
        let piece = s@.subrange(from as int, to as int);
        lemma_find(piece, c, (i - from) as nat);
    }
    i
}

/// Where a piece begins without the edge at its start.
pub(crate) fn trim_start_in(s: &Vec<char>, from: usize, to: usize, edge: Edge) -> (r: usize)
    requires
        from <= to <= s@.len(),
    ensures
        from <= r <= to,
        s@.subrange(r as int, to as int) == trim_start(s@.subrange(from as int, to as int), edge),
{
    let mut i: usize = from;
    while i < to && edge.has(s[i])
        invariant
            from <= i <= to <= s@.len(),
            forall|j: int| from <= j < i ==> edge.covers(#[trigger] s@[j]),
        decreases to - i,
    {
        i = i + 1;
    }
    proof {
        let piece = s@.subrange(from as int, to as int);
        lemma_leading(piece, edge, (i - from) as nat);
    }
    i
}

/// A piece without the edges at its start and at its end.
pub(crate) fn trim_in(s: &Vec<char>, from: usize, to: usize, edge: Edge) -> (r: (usize, usize))
    requires
        from <= to <= s@.len(),
    ensures
        from <= r.0 <= r.1 <= to,
        s@.subrange(r.0 as int, r.1 as int) == trim(s@.subrange(from as int, to as int), edge),
{
    let start: usize = trim_start_in(s, from, to, edge);
    let mut end: usize = to;
    while end > start && edge.has(s[end - 1])
        invariant
            start <= end <= to <= s@.len(),
            forall|j: int| end <= j < to ==> edge.covers(#[trigger] s@[j]),
        decreases end,
    {
        end = end - 1;
    }
    proof {
        let piece = s@.subrange(start as int, to as int);
        let k = (to - end) as nat;
        lemma_trailing(piece, edge, k);
    }
    (start, end)
}

/// Whether a piece begins with `prefix`.
pub(crate) fn starts_with_in(s: &Vec<char>, from: usize, to: usize, prefix: &Vec<char>) -> (r: bool)
    requires
        from <= to <= s@.len(),
    ensures
        r == prefix@.is_prefix_of(s@.subrange(from as int, to as int)),
{
    let ghost piece = s@.subrange(from as int, to as int);
    if prefix.len() > to - from {
        return false;
    }
    let mut i: usize = 0;
    while i < prefix.len()
        invariant
            from <= to <= s@.len(),
            prefix@.len() <= to - from,
            i <= prefix@.len(),
            piece == s@.subrange(from as int, to as int),
            forall|j: int| 0 <= j < i ==> prefix@[j] == piece[j],
        decreases prefix@.len() - i,
    {
        if s[from + i] != prefix[i] {
            return false;
        }
        i = i + 1;
    }
    true
}

} // verus!
