//! Character-level text operations with their specifications.
use vstd::prelude::*;
use vstd::string::*;

verus! {

/// `sep` occurs somewhere in `s`.
pub open spec fn has_char(s: Seq<char>, c: char) -> bool {
    exists|i: int| 0 <= i < s.len() && s[i] == c
}

/// `pat` occurs as a contiguous piece of `s`.
pub open spec fn contains_seq(s: Seq<char>, pat: Seq<char>) -> bool {
    exists|i: int| 0 <= i && i + pat.len() <= s.len() && #[trigger] s.subrange(i, i + pat.len()) == pat
}

/// The pieces of `s` between occurrences of `sep`, as `str::split` with a
/// character pattern yields them: there is always at least one piece, and two
/// adjacent separators give an empty piece.
pub open spec fn split_on(s: Seq<char>, sep: char) -> Seq<Seq<char>>
    decreases s.len(),
{
    if s.len() == 0 {
        seq![Seq::<char>::empty()]
    } else {
        let init = split_on(s.drop_last(), sep);
        if s.last() == sep {
            init.push(Seq::<char>::empty())
        } else {
            init.update(init.len() - 1, init.last().push(s.last()))
        }
    }
}

/// The piece of `s` after the last `sep` (all of `s` when `sep` does not occur).
pub open spec fn last_piece(s: Seq<char>, sep: char) -> Seq<char> {
    split_on(s, sep).last()
}

/// The piece after the last `sep` is the longest end of `s` without `sep`:
/// `s` ends with it, it holds no `sep`, and when it is not all of `s`, a
/// `sep` stands just before it.
pub proof fn lemma_last_piece_tail(s: Seq<char>, sep: char)
    ensures
        last_piece(s, sep).len() <= s.len(),
        s.subrange(s.len() - last_piece(s, sep).len(), s.len() as int) == last_piece(s, sep),
        !has_char(last_piece(s, sep), sep),
        last_piece(s, sep).len() < s.len() ==> s[s.len() - last_piece(s, sep).len() - 1] == sep,
    decreases s.len(),
{
    if s.len() == 0 {
        assert(s.subrange(0, 0) =~= last_piece(s, sep));
    } else {
        let t = s.drop_last();
        lemma_last_piece_tail(t, sep);
        lemma_split_nonempty(t, sep);
        let q = last_piece(t, sep);
        let p = last_piece(s, sep);
        if s.last() == sep {
            assert(p =~= Seq::<char>::empty());
            assert(s.subrange(s.len() as int, s.len() as int) =~= p);
        } else {
            assert(p =~= q.push(s.last()));
            assert(s.subrange(s.len() - p.len(), s.len() as int) =~= t.subrange(
                t.len() - q.len(),
                t.len() as int,
            ).push(s.last()));
            assert(!has_char(p, sep)) by {
                if has_char(p, sep) {
                    let i = choose|i: int| 0 <= i < p.len() && p[i] == sep;
                    if i < q.len() {
                        assert(q[i] == sep);
                    }
                }
            }
            if p.len() < s.len() {
                assert(s[s.len() - p.len() - 1] == t[t.len() - q.len() - 1]);
            }
        }
    }
}

/// `split_on` always yields at least one piece.
pub proof fn lemma_split_nonempty(s: Seq<char>, sep: char)
    ensures
        split_on(s, sep).len() >= 1,
    decreases s.len(),
{
    if s.len() > 0 {
        lemma_split_nonempty(s.drop_last(), sep);
    }
}

/// A text without `sep` is a single piece.
pub proof fn lemma_split_plain(s: Seq<char>, sep: char)
    requires
        !has_char(s, sep),
    ensures
        split_on(s, sep) == seq![s],
    decreases s.len(),
{
    if s.len() > 0 {
        assert(!has_char(s.drop_last(), sep)) by {
            if has_char(s.drop_last(), sep) {
                let i = choose|i: int| 0 <= i < s.drop_last().len() && s.drop_last()[i] == sep;
                assert(s[i] == sep);
            }
        }
        lemma_split_plain(s.drop_last(), sep);
        assert(s[s.len() - 1] != sep);
        assert(s.drop_last().push(s.last()) =~= s);
        assert(split_on(s, sep) =~= seq![s]);
    } else {
        assert(s =~= Seq::<char>::empty());
    }
}

/// Joining two texts with `sep` joins their pieces.
pub proof fn lemma_split_join(s: Seq<char>, t: Seq<char>, sep: char)
    ensures
        split_on(s.push(sep) + t, sep) == split_on(s, sep) + split_on(t, sep),
    decreases t.len(),
{
    let j = s.push(sep) + t;
    if t.len() == 0 {
        assert(j =~= s.push(sep));
        assert(j.drop_last() =~= s);
        assert(split_on(t, sep) =~= seq![Seq::<char>::empty()]);
        assert(split_on(j, sep) =~= split_on(s, sep) + split_on(t, sep));
    } else {
        lemma_split_join(s, t.drop_last(), sep);
        assert(j.drop_last() =~= s.push(sep) + t.drop_last());
        assert(j.last() == t.last());
        lemma_split_nonempty(t.drop_last(), sep);
        let a = split_on(s, sep);
        let b = split_on(t.drop_last(), sep);
        if t.last() == sep {
            assert(split_on(j, sep) =~= a + b.push(Seq::<char>::empty()));
        } else {
            assert((a + b).update((a + b).len() - 1, (a + b).last().push(t.last())) =~= a + b.update(
                b.len() - 1,
                b.last().push(t.last()),
            ));
        }
        assert(split_on(j, sep) =~= split_on(s, sep) + split_on(t, sep));
    }
}

/// The pieces joined back with `sep` between them.
pub open spec fn join_on(ps: Seq<Seq<char>>, sep: char) -> Seq<char>
    decreases ps.len(),
{
    if ps.len() <= 1 {
        if ps.len() == 1 {
            ps[0]
        } else {
            Seq::empty()
        }
    } else {
        join_on(ps.drop_last(), sep).push(sep) + ps.last()
    }
}

/// Joining the pieces of `s` with `sep` gives `s` back, and no piece holds `sep`.
pub proof fn lemma_split_rejoin(s: Seq<char>, sep: char)
    ensures
        join_on(split_on(s, sep), sep) == s,
        forall|i: int| 0 <= i < split_on(s, sep).len() ==> !has_char(#[trigger] split_on(s, sep)[i], sep),
    decreases s.len(),
{
    if s.len() == 0 {
        assert(!has_char(Seq::<char>::empty(), sep));
    } else {
        let t = s.drop_last();
        let c = s.last();
        lemma_split_rejoin(t, sep);
        lemma_split_nonempty(t, sep);
        let init = split_on(t, sep);
        if c == sep {
            let ps = init.push(Seq::<char>::empty());
            assert(ps.drop_last() =~= init);
            assert(join_on(ps, sep) =~= s);
            assert forall|i: int| 0 <= i < ps.len() implies !has_char(#[trigger] ps[i], sep) by {
                if i < init.len() {
                    assert(ps[i] == init[i]);
                }
            }
        } else {
            let ps = init.update(init.len() - 1, init.last().push(c));
            if init.len() == 1 {
                assert(join_on(ps, sep) =~= s);
            } else {
                assert(ps.drop_last() =~= init.drop_last());
                let head = join_on(init.drop_last(), sep).push(sep);
                assert(join_on(init, sep) == head + init.last());
                assert(join_on(ps, sep) == head + init.last().push(c));
                assert(head + init.last().push(c) =~= (head + init.last()).push(c));
                assert(t.push(c) =~= s);
            }
            assert forall|i: int| 0 <= i < ps.len() implies !has_char(#[trigger] ps[i], sep) by {
                if i < init.len() - 1 {
                    assert(ps[i] == init[i]);
                } else {
                    let last = init.last();
                    assert(!has_char(init[init.len() - 1], sep));
                    if has_char(last.push(c), sep) {
                        let k = choose|k: int| 0 <= k < last.push(c).len() && last.push(c)[k] == sep;
                        if k < last.len() {
                            assert(last[k] == sep);
                        }
                    }
                }
            }
        }
    }
}

/// Cutting `s` short never gives more pieces.
pub proof fn lemma_split_len_mono(s: Seq<char>, sep: char, j: int)
    requires
        0 <= j <= s.len(),
    ensures
        split_on(s, sep).len() >= split_on(s.subrange(0, j), sep).len(),
    decreases s.len() - j,
{
    if j < s.len() {
        lemma_split_len_mono(s, sep, j + 1);
        let p = s.subrange(0, j + 1);
        assert(p.drop_last() =~= s.subrange(0, j));
    } else {
        assert(s.subrange(0, j) =~= s);
    }
}

/// A text that holds a piece starting and ending with `sep` splits into at
/// least three pieces.
pub proof fn lemma_three_pieces(s: Seq<char>, pat: Seq<char>, sep: char)
    requires
        contains_seq(s, pat),
        pat.len() >= 2,
        pat[0] == sep,
        pat[pat.len() - 1] == sep,
    ensures
        split_on(s, sep).len() >= 3,
{
    let i = choose|i: int| 0 <= i && i + pat.len() <= s.len() && #[trigger] s.subrange(i, i + pat.len()) == pat;
    let a = i;
    let b = i + pat.len() - 1;
    assert(s[a] == s.subrange(i, i + pat.len())[0]);
    assert(s[b] == s.subrange(i, i + pat.len())[pat.len() - 1]);
    lemma_split_len_mono(s, sep, b + 1);
    let pb = s.subrange(0, b + 1);
    assert(pb.drop_last() =~= s.subrange(0, b));
    let sb = s.subrange(0, b);
    lemma_split_len_mono(sb, sep, a + 1);
    assert(sb.subrange(0, a + 1) =~= s.subrange(0, a + 1));
    let pa = s.subrange(0, a + 1);
    assert(pa.drop_last() =~= s.subrange(0, a));
    lemma_split_nonempty(s.subrange(0, a), sep);
}

/// The characters of `s`, one by one.
pub fn chars_of(s: &str) -> (r: Vec<char>)
    ensures
        r@ == s@,
{
    let n = s.unicode_len();
    let mut r: Vec<char> = Vec::new();
    let mut i: usize = 0;
    while i < n
        invariant
            n == s@.len(),
            i <= n,
            r@ == s@.subrange(0, i as int),
        decreases n - i,
    {
        r.push(s.get_char(i));
        i = i + 1;
    }
    assert(r@ == s@);
    r
}

/// Whether `c` occurs in `s`.
pub fn contains_char(s: &str, c: char) -> (r: bool)
    ensures
        r == has_char(s@, c),
{
    let cs = chars_of(s);
    let mut i: usize = 0;
    while i < cs.len()
        invariant
            cs@ == s@,
            i <= cs@.len(),
            forall|j: int| 0 <= j < i ==> cs@[j] != c,
        decreases cs.len() - i,
    {
        if cs[i] == c {
            return true;
        }
        i = i + 1;
    }
    false
}

/// Whether `pat` occurs as a contiguous piece of `s`.
pub fn contains_str(s: &str, pat: &str) -> (r: bool)
    ensures
        r == contains_seq(s@, pat@),
{
    let cs = chars_of(s);
    let ps = chars_of(pat);
    if ps.len() > cs.len() {
        assert forall|i: int| 0 <= i && i + ps@.len() <= cs@.len() implies
            #[trigger] s@.subrange(i, i + pat@.len()) != pat@ by {}
        return false;
    }
    let last: usize = cs.len() - ps.len();
    let mut i: usize = 0;
    while i <= last
        invariant
            cs@ == s@,
            ps@ == pat@,
            last + ps.len() == cs.len(),
            i <= last + 1,
            forall|j: int| 0 <= j < i ==> #[trigger] s@.subrange(j, j + pat@.len()) != pat@,
        decreases last + 1 - i,
    {
        let mut k: usize = 0;
        let mut same = true;
        while k < ps.len()
            invariant
                cs@ == s@,
                ps@ == pat@,
                last + ps.len() == cs.len(),
                i <= last,
                k <= ps@.len(),
                same == (forall|m: int| 0 <= m < k ==> cs@[i + m] == ps@[m]),
            decreases ps.len() - k,
        {
            if cs[i + k] != ps[k] {
                same = false;
            }
            k = k + 1;
        }
        if same {
            assert(s@.subrange(i as int, i + pat@.len()) =~= pat@);
            return true;
        }
        assert(s@.subrange(i as int, i + pat@.len()) != pat@) by {
            let m = choose|m: int| 0 <= m < ps@.len() && cs@[i + m] != ps@[m];
            assert(s@.subrange(i as int, i + pat@.len())[m] != pat@[m]);
        }
        if i == last {
            assert forall|j: int| 0 <= j && j + pat@.len() <= s@.len() implies
                #[trigger] s@.subrange(j, j + pat@.len()) != pat@ by {
                assert(j <= i);
            }
            return false;
        }
        i = i + 1;
    }
    assert forall|j: int| 0 <= j && j + pat@.len() <= s@.len() implies
        #[trigger] s@.subrange(j, j + pat@.len()) != pat@ by {
        assert(j < i);
    }
    false
}

/// The texts of a sequence of strings.
pub open spec fn texts(v: Seq<String>) -> Seq<Seq<char>> {
    v.map_values(|x: String| x@)
}

/// The pieces of `s` between occurrences of `sep`, as `str::split` yields them.
pub fn split_pieces(s: &str, sep: char) -> (r: Vec<String>)
    ensures
        texts(r@) == split_on(s@, sep),
{
    let n = s.unicode_len();
    let mut pieces: Vec<String> = Vec::new();
    let mut start: usize = 0;
    let mut i: usize = 0;
    assert(s@.subrange(0, 0) =~= Seq::<char>::empty());
    assert(texts(pieces@).push(s@.subrange(0, 0)) =~= split_on(s@.subrange(0, 0), sep));
    while i < n
        invariant
            n == s@.len(),
            start <= i <= n,
            texts(pieces@).push(s@.subrange(start as int, i as int)) == split_on(
                s@.subrange(0, i as int),
                sep,
            ),
        decreases n - i,
    {
        let c = s.get_char(i);
        let ghost prefix = s@.subrange(0, i as int);
        let ghost next = s@.subrange(0, i + 1);
        assert(next.drop_last() =~= prefix);
        assert(next.last() == c);
        if c == sep {
            let piece = s.substring_char(start, i).to_owned();
            let ghost before = pieces@;
            pieces.push(piece);
            assert(texts(pieces@) =~= texts(before).push(s@.subrange(start as int, i as int)));
            start = i + 1;
            assert(s@.subrange(start as int, i + 1) =~= Seq::<char>::empty());
            assert(texts(pieces@).push(s@.subrange(start as int, i + 1)) =~= split_on(next, sep));
        } else {
            assert(s@.subrange(start as int, i + 1) =~= s@.subrange(start as int, i as int).push(c));
            assert(texts(pieces@).push(s@.subrange(start as int, i + 1)) =~= split_on(next, sep));
        }
        i = i + 1;
    }
    let last = s.substring_char(start, n).to_owned();
    let ghost before = pieces@;
    pieces.push(last);
    assert(texts(pieces@) =~= texts(before).push(s@.subrange(start as int, n as int)));
    assert(s@.subrange(0, n as int) =~= s@);
    assert(texts(pieces@) =~= split_on(s@, sep));
    pieces
}

/// The piece of `s` after the last `sep`, as `s.split(sep).last()` gives it.
pub fn last_piece_of(s: &str, sep: char) -> (r: String)
    ensures
        r@ == last_piece(s@, sep),
{
    let pieces = split_pieces(s, sep);
    proof {
        lemma_split_nonempty(s@, sep);
    }
    let k = pieces.len() - 1;
    assert(texts(pieces@)[k as int] == pieces@[k as int]@);
    pieces[k].clone()
}

} // verus!
