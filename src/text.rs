//! Splitting text into pieces at a separator character, and the line
//! structure of a text file.

use vstd::prelude::*;

verus! {

/// The pieces of `s` between the occurrences of `sep`, left to right; there
/// is always one more piece than there are separators.
pub open spec fn split_on(s: Seq<char>, sep: char) -> Seq<Seq<char>>
    decreases s.len(),
{
    if s.len() == 0 {
        seq![Seq::empty()]
    } else {
        let pieces = split_on(s.drop_last(), sep);
        if s.last() == sep {
            pieces.push(Seq::empty())
        } else {
            pieces.update(pieces.len() - 1, pieces.last().push(s.last()))
        }
    }
}

/// The lines of a text: an empty text has none, and a final `'\n'` ends the
/// last line rather than opening a new one.
pub open spec fn lines_of(s: Seq<char>) -> Seq<Seq<char>> {
    if s.len() == 0 {
        Seq::empty()
    } else if s.last() == '\n' {
        split_on(s.drop_last(), '\n')
    } else {
        split_on(s, '\n')
    }
}

/// The text made of `lines`, each followed by `'\n'`.
pub open spec fn terminated(lines: Seq<Seq<char>>) -> Seq<char> {
    lines.map_values(|l: Seq<char>| l.push('\n')).flatten()
}

/// The views of a sequence of strings.
pub open spec fn views(v: Seq<String>) -> Seq<Seq<char>> {
    v.map_values(|s: String| s@)
}

/// There is always at least one piece.
pub proof fn lemma_split_on_nonempty(s: Seq<char>, sep: char)
    ensures
        split_on(s, sep).len() >= 1,
    decreases s.len(),
{
    if s.len() > 0 {
        lemma_split_on_nonempty(s.drop_last(), sep);
    }
}

/// No piece holds the separator.
pub proof fn lemma_split_on_pieces(s: Seq<char>, sep: char)
    ensures
        forall|i: int|
            0 <= i < split_on(s, sep).len() ==> !(#[trigger] split_on(s, sep)[i]).contains(sep),
    decreases s.len(),
{
    if s.len() > 0 {
        let p = split_on(s.drop_last(), sep);
        lemma_split_on_pieces(s.drop_last(), sep);
        lemma_split_on_nonempty(s.drop_last(), sep);
        if s.last() != sep {
            let l = p.last().push(s.last());
            assert(!l.contains(sep)) by {
                if l.contains(sep) {
                    let k = choose|k: int| 0 <= k < l.len() && l[k] == sep;
                    assert(k < p.last().len());
                    assert(p.last() == p[p.len() - 1]);
                    assert(p.last()[k] == sep);
                }
            }
        } else {
            assert(!Seq::<char>::empty().contains(sep));
        }
    }
}

/// No line of a text holds `'\n'`.
pub proof fn lemma_lines_of_lines(s: Seq<char>)
    ensures
        forall|i: int| 0 <= i < lines_of(s).len() ==> !(#[trigger] lines_of(s)[i]).contains('\n'),
{
    if s.len() > 0 {
        lemma_split_on_pieces(s, '\n');
        lemma_split_on_pieces(s.drop_last(), '\n');
    }
}

/// Appending text free of the separator extends the last piece.
pub proof fn lemma_split_on_extend(x: Seq<char>, y: Seq<char>, sep: char)
    requires
        !y.contains(sep),
    ensures
        split_on(x + y, sep) == ({
            let p = split_on(x, sep);
            p.update(p.len() - 1, p.last() + y)
        }),
    decreases y.len(),
{
    lemma_split_on_nonempty(x, sep);
    let p = split_on(x, sep);
    if y.len() == 0 {
        assert(x + y =~= x);
        assert(p.last() + y =~= p.last());
        assert(p.update(p.len() - 1, p.last() + y) =~= p);
    } else {
        let y0 = y.drop_last();
        assert(!y0.contains(sep)) by {
            if y0.contains(sep) {
                let k = choose|k: int| 0 <= k < y0.len() && y0[k] == sep;
                assert(y[k] == sep);
            }
        }
        lemma_split_on_extend(x, y0, sep);
        assert((x + y).drop_last() =~= x + y0);
        assert((x + y).last() == y.last());
        assert(y.last() != sep) by {
            assert(y[y.len() - 1] == y.last());
        }
        lemma_split_on_nonempty(x + y0, sep);
        let q = split_on(x + y0, sep);
        assert(q.len() == p.len());
        assert(q.last() == p.last() + y0);
        assert(split_on(x + y, sep) == q.update(q.len() - 1, q.last().push(y.last())));
        assert((p.last() + y0).push(y.last()) =~= p.last() + y);
        assert(split_on(x + y, sep) =~= p.update(p.len() - 1, p.last() + y));
    }
}

pub proof fn lemma_terminated_push(lines: Seq<Seq<char>>, l: Seq<char>)
    ensures
        terminated(lines.push(l)) == terminated(lines) + l.push('\n'),
{
    let f = |x: Seq<char>| x.push('\n');
    assert(lines.push(l).map_values(f) =~= lines.map_values(f).push(f(l)));
    lines.map_values(f).lemma_flatten_push(f(l));
}

proof fn lemma_split_on_terminated(lines: Seq<Seq<char>>)
    requires
        forall|i: int| 0 <= i < lines.len() ==> !(#[trigger] lines[i]).contains('\n'),
    ensures
        split_on(terminated(lines), '\n') == lines.push(Seq::empty()),
    decreases lines.len(),
{
    if lines.len() == 0 {
        assert(terminated(lines) =~= Seq::<char>::empty());
        assert(split_on(Seq::empty(), '\n') =~= lines.push(Seq::empty()));
    } else {
        let init = lines.drop_last();
        let l = lines.last();
        assert forall|i: int| 0 <= i < init.len() implies !(#[trigger] init[i]).contains('\n') by {
            assert(init[i] == lines[i]);
        }
        lemma_split_on_terminated(init);
        lemma_terminated_push(init, l);
        assert(init.push(l) =~= lines);
        let t = terminated(init);
        assert(!l.contains('\n')) by {
            assert(l == lines[lines.len() - 1]);
        }
        lemma_split_on_extend(t, l, '\n');
        assert(t + l.push('\n') =~= (t + l).push('\n'));
        assert((t + l).push('\n').drop_last() =~= t + l);
        assert(Seq::<char>::empty() + l =~= l);
        assert(init.push(Seq::empty()).update(init.len() as int, l) =~= lines);
    }
}

/// Reading back the lines of a text written line by line gives those lines.
pub proof fn lemma_lines_of_terminated(lines: Seq<Seq<char>>)
    requires
        forall|i: int| 0 <= i < lines.len() ==> !(#[trigger] lines[i]).contains('\n'),
    ensures
        lines_of(terminated(lines)) == lines,
{
    lemma_split_on_terminated(lines);
    let t = terminated(lines);
    if lines.len() == 0 {
        assert(t =~= Seq::<char>::empty());
    } else {
        lemma_terminated_push(lines.drop_last(), lines.last());
        assert(lines.drop_last().push(lines.last()) =~= lines);
        assert(t.last() == '\n');
        assert(split_on(t, '\n') == split_on(t.drop_last(), '\n').push(Seq::empty()));
        assert(lines.push(Seq::empty()).drop_last() =~= lines);
    }
}

/// Splits `s` at every occurrence of `sep`.
pub fn split_at_char(s: &str, sep: char) -> (pieces: Vec<String>)
    ensures
        views(pieces@) == split_on(s@, sep),
{
    let n = s.unicode_len();
    let mut pieces: Vec<String> = Vec::new();
    let mut start: usize = 0;
    let mut i: usize = 0;
    assert(views(pieces@) =~= Seq::empty());
    assert(s@.take(0) =~= Seq::<char>::empty());
    assert(views(pieces@).push(s@.subrange(0, 0)) =~= split_on(s@.take(0), sep));
    for c in it: s.chars()
        invariant
            n == s@.len(),
            it.seq() == s@,
            i == it.index(),
            start <= i <= n,
            views(pieces@).push(s@.subrange(start as int, i as int)) == split_on(
                s@.take(i as int),
                sep,
            ),
    {
        proof {
            lemma_split_on_nonempty(s@.take(i as int), sep);
        }
        assert(s@.take(i + 1).drop_last() =~= s@.take(i as int));
        assert(s@.take(i + 1).last() == c);
        let ghost before = views(pieces@).push(s@.subrange(start as int, i as int));
        if c == sep {
            let piece = s.substring_char(start, i).to_owned();
            pieces.push(piece);
            start = i + 1;
            assert(views(pieces@) =~= before);
            assert(s@.subrange(start as int, i + 1) =~= Seq::<char>::empty());
            assert(views(pieces@).push(s@.subrange(start as int, i + 1)) =~= before.push(
                Seq::empty(),
            ));
        } else {
            assert(s@.subrange(start as int, i + 1) =~= s@.subrange(start as int, i as int).push(
                c,
            ));
            assert(views(pieces@).push(s@.subrange(start as int, i + 1)) =~= before.update(
                before.len() - 1,
                before.last().push(c),
            ));
        }
        i = i + 1;
    }
    let last = s.substring_char(start, n).to_owned();
    pieces.push(last);
    assert(s@.take(n as int) =~= s@);
    assert(views(pieces@) =~= views(pieces@.drop_last()).push(last@));
    pieces
}

/// Splits `s` into its lines.
pub fn split_lines(s: &str) -> (lines: Vec<String>)
    ensures
        views(lines@) == lines_of(s@),
{
    let n = s.unicode_len();
    if n == 0 {
        let lines: Vec<String> = Vec::new();
        assert(views(lines@) =~= Seq::empty());
        lines
    } else if s.get_char(n - 1) == '\n' {
        let body = s.substring_char(0, n - 1);
        assert(body@ =~= s@.drop_last());
        split_at_char(body, '\n')
    } else {
        split_at_char(s, '\n')
    }
}

/// Whether `c` has Unicode's White_Space property: the controls U+0009 to
/// U+000D, the space, U+0085, the no-break space, U+1680, the spaces U+2000
/// to U+200A, the line and paragraph separators U+2028 and U+2029, U+202F,
/// U+205F and U+3000.
pub open spec fn white_space(c: char) -> bool {
    let u = c as u32;
    ||| 0x9 <= u <= 0xD
    ||| u == 0x20
    ||| u == 0x85
    ||| u == 0xA0
    ||| u == 0x1680
    ||| 0x2000 <= u <= 0x200A
    ||| u == 0x2028
    ||| u == 0x2029
    ||| u == 0x202F
    ||| u == 0x205F
    ||| u == 0x3000
}

/// Whether `c` is white space.
pub fn is_white_space(c: char) -> (r: bool)
    ensures
        r == white_space(c),
{
    let u = c as u32;
    (0x9 <= u && u <= 0xD) || u == 0x20 || u == 0x85 || u == 0xA0 || u == 0x1680 || (0x2000 <= u
        && u <= 0x200A) || u == 0x2028 || u == 0x2029 || u == 0x202F || u == 0x205F || u == 0x3000
}

/// A text made of white space only; the empty text is blank.
pub open spec fn blank(s: Seq<char>) -> bool {
    forall|i: int| 0 <= i < s.len() ==> white_space(#[trigger] s[i])
}

/// Whether `s` holds nothing but white space.
pub fn is_blank(s: &str) -> (r: bool)
    ensures
        r == blank(s@),
{
    for c in it: s.chars()
        invariant
            it.seq() == s@,
            forall|k: int| 0 <= k < it.index() ==> white_space(#[trigger] s@[k]),
    {
        if !is_white_space(c) {
            return false;
        }
    }
    true
}

} // verus!
