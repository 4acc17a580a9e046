//! The header row: a comma-separated list of labels, each trimmed.

use vstd::prelude::*;
use vstd::string::*;

verus! {

/// Whether `c` counts as white space for trimming a label.
pub uninterp spec fn white(c: char) -> bool;

/// Relies on `char::is_whitespace`, which decides by the character alone
/// (Unicode's `White_Space` property).
#[verifier::external_body]
fn is_white(c: char) -> (r: bool)
    ensures
        r == white(c),
{
    c.is_whitespace()
}

/// `t` without its leading white space.
pub open spec fn trim_start(t: Seq<char>) -> Seq<char>
    decreases t.len(),
{
    if t.len() > 0 && white(t[0]) {
        trim_start(t.drop_first())
    } else {
        t
    }
}

/// `t` without its trailing white space.
pub open spec fn trim_end(t: Seq<char>) -> Seq<char>
    decreases t.len(),
{
    if t.len() > 0 && white(t.last()) {
        trim_end(t.drop_last())
    } else {
        t
    }
}

/// `t` without white space at either end.
pub open spec fn trim(t: Seq<char>) -> Seq<char> {
    trim_end(trim_start(t))
}

/// The pieces of `s` between commas, from left to right; `n` commas give
/// `n + 1` pieces, and the empty text gives one empty piece.
pub open spec fn split_commas(s: Seq<char>) -> Seq<Seq<char>>
    decreases s.len(),
{
    if s.len() == 0 {
        seq![Seq::empty()]
    } else {
        let before = split_commas(s.drop_last());
        if s.last() == ',' {
            before.push(Seq::empty())
        } else {
            before.update(before.len() - 1, before.last().push(s.last()))
        }
    }
}

/// The labels of a header text: its comma-separated pieces, each trimmed.
pub open spec fn header_fields(s: Seq<char>) -> Seq<Seq<char>> {
    trim_all(split_commas(s))
}

/// Each piece trimmed, in order.
pub open spec fn trim_all(pieces: Seq<Seq<char>>) -> Seq<Seq<char>> {
    pieces.map_values(|p: Seq<char>| trim(p))
}

/// The text of each string, in order.
pub open spec fn texts(v: Seq<String>) -> Seq<Seq<char>> {
    v.map_values(|x: String| x@)
}

/// The pieces joined back together, a comma between each two.
pub open spec fn join_commas(pieces: Seq<Seq<char>>) -> Seq<char>
    decreases pieces.len(),
{
    if pieces.len() <= 1 {
        if pieces.len() == 0 {
            Seq::empty()
        } else {
            pieces[0]
        }
    } else {
        join_commas(pieces.drop_last()) + seq![','] + pieces.last()
    }
}

/// Splitting at commas loses nothing and reorders nothing: there is at least
/// one piece, no piece holds a comma, and the pieces joined with commas give
/// back the text.
pub proof fn lemma_split_rejoins(s: Seq<char>)
    ensures
        split_commas(s).len() >= 1,
        forall|i: int, j: int|
            0 <= i < split_commas(s).len() && 0 <= j < split_commas(s)[i].len() ==> #[trigger] split_commas(s)[i][j] != ',',
        join_commas(split_commas(s)) == s,
    decreases s.len(),
{
    if s.len() == 0 {
        assert(split_commas(s) =~= seq![Seq::<char>::empty()]);
        assert(join_commas(split_commas(s)) =~= s);
    } else {
        let t = s.drop_last();
        let c = s.last();
        lemma_split_rejoins(t);
        let p = split_commas(t);
        assert(t.push(c) =~= s);
        if c == ',' {
            let q = p.push(Seq::<char>::empty());
            assert(q.drop_last() =~= p);
            assert(join_commas(q) =~= s);
            assert forall|i: int, j: int|
                0 <= i < q.len() && 0 <= j < q[i].len() implies #[trigger] q[i][j] != ',' by {
                assert(i < p.len());
                assert(q[i] == p[i]);
            }
        } else {
            let last = p.last().push(c);
            let q = p.update(p.len() - 1, last);
            assert forall|i: int, j: int|
                0 <= i < q.len() && 0 <= j < q[i].len() implies #[trigger] q[i][j] != ',' by {
                if i < p.len() - 1 {
                    assert(q[i] == p[i]);
                } else {
                    assert(q[i] == last);
                    if j < p.last().len() {
                        assert(last[j] == p[p.len() - 1][j]);
                    }
                }
            }
            if p.len() == 1 {
                assert(join_commas(p) == p[0]);
                assert(join_commas(q) =~= s);
            } else {
                assert(q.drop_last() =~= p.drop_last());
                assert(join_commas(p) == join_commas(p.drop_last()) + seq![','] + p.last());
                assert(join_commas(q) =~= s);
            }
        }
    }
}

/// Returns `t` without white space at either end.
pub fn trim_label(t: &str) -> (r: String)
    ensures
        r@ == trim(t@),
{
    let n = t.unicode_len();
    let mut lo: usize = 0;
    assert(t@.subrange(0, n as int) =~= t@);
    while lo < n && is_white(t.get_char(lo))
        invariant
            n == t@.len(),
            lo <= n,
            trim_start(t@) == trim_start(t@.subrange(lo as int, n as int)),
        decreases n - lo,
    {
        assert(t@.subrange(lo as int, n as int).drop_first() =~= t@.subrange(lo + 1, n as int));
        lo = lo + 1;
    }
    assert(trim_start(t@) == t@.subrange(lo as int, n as int));
    let mut hi: usize = n;
    while hi > lo && is_white(t.get_char(hi - 1))
        invariant
            n == t@.len(),
            lo <= hi <= n,
            trim(t@) == trim_end(t@.subrange(lo as int, hi as int)),
        decreases hi - lo,
    {
        assert(t@.subrange(lo as int, hi as int).drop_last() =~= t@.subrange(lo as int, hi - 1));
        hi = hi - 1;
    }
    String::from_str(t.substring_char(lo, hi))
}

/// Splits `header` at each comma and trims every piece; the labels keep the
/// order in which they stand.
pub fn split_header(header: &str) -> (r: Vec<String>)
    ensures
        texts(r@) == header_fields(header@),
{
    let n = header.unicode_len();
    let mut fields: Vec<String> = Vec::new();
    let ghost mut pieces: Seq<Seq<char>> = Seq::empty();
    let mut start: usize = 0;
    let mut i: usize = 0;
    assert(header@.take(0).len() == 0);
    assert(split_commas(header@.take(0)) =~~= pieces.push(header@.subrange(0, 0)));
    while i < n
        invariant
            n == header@.len(),
            start <= i <= n,
            split_commas(header@.take(i as int)) == pieces.push(header@.subrange(start as int, i as int)),
            texts(fields@) == trim_all(pieces),
        decreases n - i,
    {
        let c = header.get_char(i);
        let ghost s = header@.take(i + 1);
        assert(s.drop_last() =~= header@.take(i as int));
        assert(s.last() == c);
        assert(s.len() > 0);
        if c == ',' {
            let label = trim_label(header.substring_char(start, i));
            let ghost old_fields = fields@;
            let ghost old_pieces = pieces;
            proof {
                pieces = pieces.push(header@.subrange(start as int, i as int));
            }
            fields.push(label);
            assert(texts(fields@) =~= texts(old_fields).push(label@));
            assert(trim_all(pieces) =~= trim_all(old_pieces).push(label@));
            start = i + 1;
            assert(split_commas(s) =~~= pieces.push(header@.subrange(start as int, i + 1)));
        } else {
            assert(split_commas(s) =~~= pieces.push(header@.subrange(start as int, i + 1)));
        }
        i = i + 1;
    }
    let label = trim_label(header.substring_char(start, n));
    let ghost old_fields = fields@;
    let ghost old_pieces = pieces;
    proof {
        pieces = pieces.push(header@.subrange(start as int, n as int));
    }
    fields.push(label);
    assert(texts(fields@) =~= texts(old_fields).push(label@));
    assert(trim_all(pieces) =~= trim_all(old_pieces).push(label@));
    assert(header@.take(n as int) =~= header@);
    assert(texts(fields@) =~= header_fields(header@));
    fields
}

} // verus!
