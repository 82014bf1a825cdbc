//! Splitting and joining of character sequences around a separator, with the
//! round-trip lemmas that the descriptor and disabled-list file formats and
//! the path rules are proved from.

use vstd::prelude::*;

verus! {

/// The pieces of `s` between occurrences of `sep`, in order.  There is always
/// at least one piece; a separator at the end yields a trailing empty piece.
pub open spec fn split_seq(s: Seq<char>, sep: char) -> Seq<Seq<char>>
    decreases s.len(),
{
    if s.len() == 0 {
        seq![Seq::<char>::empty()]
    } else if s[0] == sep {
        seq![Seq::<char>::empty()] + split_seq(s.skip(1), sep)
    } else {
        let rest = split_seq(s.skip(1), sep);
        seq![seq![s[0]] + rest[0]] + rest.skip(1)
    }
}

/// The pieces interleaved with the separator, in order.
pub open spec fn join_seq(v: Seq<Seq<char>>, sep: char) -> Seq<char>
    decreases v.len(),
{
    if v.len() == 0 {
        Seq::<char>::empty()
    } else if v.len() == 1 {
        v[0]
    } else {
        v[0] + seq![sep] + join_seq(v.skip(1), sep)
    }
}

/// Every character of every piece of `v` differs from `c`.
pub open spec fn pieces_free_of(v: Seq<Seq<char>>, c: char) -> bool {
    forall|i: int, j: int| 0 <= i < v.len() && 0 <= j < v[i].len() ==> v[i][j] != c
}

/// No character of `s` equals `c`.
pub open spec fn free_of(s: Seq<char>, c: char) -> bool {
    forall|i: int| 0 <= i < s.len() ==> s[i] != c
}

pub proof fn lemma_split_len(s: Seq<char>, sep: char)
    ensures
        split_seq(s, sep).len() >= 1,
    decreases s.len(),
{
    if s.len() == 0 {
    } else if s[0] == sep {
        lemma_split_len(s.skip(1), sep);
    } else {
        lemma_split_len(s.skip(1), sep);
    }
}

/// Splitting a separator-free sequence yields that sequence as the one piece.
pub proof fn lemma_split_no_sep(s: Seq<char>, sep: char)
    requires
        free_of(s, sep),
    ensures
        split_seq(s, sep) =~~= seq![s],
    decreases s.len(),
{
    if s.len() == 0 {
        assert(split_seq(s, sep) =~~= seq![s]);
    } else {
        assert(s[0] != sep);
        assert(free_of(s.skip(1), sep)) by {
            assert(forall|i: int| 0 <= i < s.skip(1).len() ==> s.skip(1)[i] == s[i + 1]);
        }
        lemma_split_no_sep(s.skip(1), sep);
        assert(seq![s[0]] + s.skip(1) =~= s);
        assert(split_seq(s, sep) =~~= seq![s]);
    }
}

/// Splitting `a + sep + b` where `a` is separator-free peels `a` off the front.
pub proof fn lemma_split_concat(a: Seq<char>, b: Seq<char>, sep: char)
    requires
        free_of(a, sep),
    ensures
        split_seq(a + seq![sep] + b, sep) =~~= seq![a] + split_seq(b, sep),
    decreases a.len(),
{
    let s = a + seq![sep] + b;
    if a.len() == 0 {
        assert(s =~= seq![sep] + b);
        assert(s[0] == sep);
        assert(s.skip(1) =~= b);
        assert(split_seq(s, sep) =~~= seq![Seq::<char>::empty()] + split_seq(b, sep));
        assert(seq![a] =~~= seq![Seq::<char>::empty()]);
    } else {
        assert(s[0] == a[0]);
        assert(s[0] != sep);
        assert(free_of(a.skip(1), sep)) by {
            assert(forall|i: int| 0 <= i < a.skip(1).len() ==> a.skip(1)[i] == a[i + 1]);
        }
        lemma_split_concat(a.skip(1), b, sep);
        assert(s.skip(1) =~= a.skip(1) + seq![sep] + b);
        let rest = split_seq(s.skip(1), sep);
        assert(rest =~~= seq![a.skip(1)] + split_seq(b, sep));
        lemma_split_len(b, sep);
        assert(rest[0] == a.skip(1));
        assert(seq![a[0]] + rest[0] =~= a);
        assert(rest.skip(1) =~~= split_seq(b, sep));
        assert(split_seq(s, sep) =~~= seq![a] + split_seq(b, sep));
    }
}

/// A join of separator-free pieces splits back into exactly those pieces.
pub proof fn lemma_split_join(v: Seq<Seq<char>>, sep: char)
    requires
        v.len() >= 1,
        pieces_free_of(v, sep),
    ensures
        split_seq(join_seq(v, sep), sep) =~~= v,
    decreases v.len(),
{
    if v.len() == 1 {
        assert(free_of(v[0], sep));
        lemma_split_no_sep(v[0], sep);
        assert(split_seq(join_seq(v, sep), sep) =~~= seq![v[0]]);
        assert(seq![v[0]] =~~= v);
    } else {
        assert(pieces_free_of(v.skip(1), sep)) by {
            assert(forall|i: int| 0 <= i < v.skip(1).len() ==> v.skip(1)[i] == v[i + 1]);
        }
        lemma_split_join(v.skip(1), sep);
        assert(free_of(v[0], sep));
        lemma_split_concat(v[0], join_seq(v.skip(1), sep), sep);
        assert(split_seq(join_seq(v, sep), sep) =~~= seq![v[0]] + v.skip(1));
        assert(seq![v[0]] + v.skip(1) =~~= v);
    }
}

/// A join of separator-free pieces contains the separator exactly
/// `v.len() - 1` times; in particular a join of pieces free of some other
/// character `c` (with `sep != c`) is itself free of `c`.
pub proof fn lemma_join_free_of(v: Seq<Seq<char>>, sep: char, c: char)
    requires
        pieces_free_of(v, c),
        sep != c,
    ensures
        free_of(join_seq(v, sep), c),
    decreases v.len(),
{
    if v.len() == 0 {
    } else if v.len() == 1 {
        assert(free_of(v[0], c));
    } else {
        assert(pieces_free_of(v.skip(1), c)) by {
            assert(forall|i: int| 0 <= i < v.skip(1).len() ==> v.skip(1)[i] == v[i + 1]);
        }
        lemma_join_free_of(v.skip(1), sep, c);
        let j = v[0] + seq![sep] + join_seq(v.skip(1), sep);
        assert(free_of(v[0], c));
        assert forall|i: int| 0 <= i < j.len() implies j[i] != c by {
            if i < v[0].len() {
                assert(j[i] == v[0][i]);
            } else if i == v[0].len() {
                assert(j[i] == sep);
            } else {
                assert(j[i] == join_seq(v.skip(1), sep)[i - v[0].len() - 1]);
            }
        }
    }
}

/// Each line followed by a newline: the shape of the record files this host
/// writes (descriptor records and the disabled-plugin list).
pub open spec fn join_lines(v: Seq<Seq<char>>) -> Seq<char>
    decreases v.len(),
{
    if v.len() == 0 {
        Seq::<char>::empty()
    } else {
        v[0] + seq!['\n'] + join_lines(v.skip(1))
    }
}

/// Splitting a newline-terminated line file recovers the lines, plus the
/// empty piece after the final newline.
pub proof fn lemma_split_lines(v: Seq<Seq<char>>)
    requires
        pieces_free_of(v, '\n'),
    ensures
        split_seq(join_lines(v), '\n') =~~= v + seq![Seq::<char>::empty()],
    decreases v.len(),
{
    if v.len() == 0 {
        assert(split_seq(join_lines(v), '\n') =~~= seq![Seq::<char>::empty()]);
        assert(v + seq![Seq::<char>::empty()] =~~= seq![Seq::<char>::empty()]);
    } else {
        assert(pieces_free_of(v.skip(1), '\n')) by {
            assert(forall|i: int| 0 <= i < v.skip(1).len() ==> v.skip(1)[i] == v[i + 1]);
        }
        lemma_split_lines(v.skip(1));
        assert(free_of(v[0], '\n'));
        lemma_split_concat(v[0], join_lines(v.skip(1)), '\n');
        assert(split_seq(join_lines(v), '\n') =~~= seq![v[0]] + (v.skip(1) + seq![
            Seq::<char>::empty(),
        ]));
        assert(seq![v[0]] + (v.skip(1) + seq![Seq::<char>::empty()]) =~~= v + seq![
            Seq::<char>::empty(),
        ]);
    }
}

/// Appending one more line to a line file appends its text and a newline.
pub proof fn lemma_join_lines_snoc(v: Seq<Seq<char>>, x: Seq<char>)
    ensures
        join_lines(v.push(x)) =~= join_lines(v) + x + seq!['\n'],
    decreases v.len(),
{
    if v.len() == 0 {
        assert(v.push(x)[0] == x);
        assert(v.push(x).skip(1) =~~= Seq::<Seq<char>>::empty());
        assert(join_lines(Seq::<Seq<char>>::empty()) =~= Seq::<char>::empty());
        assert(join_lines(v.push(x)) =~= x + seq!['\n']);
    } else {
        assert(v.push(x).skip(1) =~~= v.skip(1).push(x));
        lemma_join_lines_snoc(v.skip(1), x);
        assert(v.push(x)[0] == v[0]);
        assert(join_lines(v.push(x)) =~= v[0] + seq!['\n'] + (join_lines(v.skip(1)) + x + seq![
            '\n',
        ]));
        assert(v[0] + seq!['\n'] + (join_lines(v.skip(1)) + x + seq!['\n']) =~= join_lines(v) + x
            + seq!['\n']);
    }
}

/// No piece of a split contains the separator.
pub proof fn lemma_split_pieces_free(s: Seq<char>, sep: char)
    ensures
        pieces_free_of(split_seq(s, sep), sep),
    decreases s.len(),
{
    if s.len() == 0 {
    } else if s[0] == sep {
        lemma_split_pieces_free(s.skip(1), sep);
        assert forall|i: int, j: int|
            0 <= i < split_seq(s, sep).len() && 0 <= j < split_seq(s, sep)[i].len() implies
            split_seq(s, sep)[i][j] != sep by {
            if i > 0 {
                assert(split_seq(s, sep)[i] == split_seq(s.skip(1), sep)[i - 1]);
            }
        }
    } else {
        lemma_split_pieces_free(s.skip(1), sep);
        lemma_split_len(s.skip(1), sep);
        let rest = split_seq(s.skip(1), sep);
        assert forall|i: int, j: int|
            0 <= i < split_seq(s, sep).len() && 0 <= j < split_seq(s, sep)[i].len() implies
            split_seq(s, sep)[i][j] != sep by {
            if i == 0 {
                assert(split_seq(s, sep)[0] == seq![s[0]] + rest[0]);
                if j > 0 {
                    assert((seq![s[0]] + rest[0])[j] == rest[0][j - 1]);
                }
            } else {
                assert(split_seq(s, sep)[i] == rest[i]);
            }
        }
    }
}

/// The views of a vector of strings.
pub open spec fn seq_views(v: Seq<String>) -> Seq<Seq<char>> {
    v.map_values(|x: String| x@)
}

/// Decides whether `s` is free of the character `c`.
pub fn str_free_of(s: &str, c: char) -> (r: bool)
    ensures
        r == free_of(s@, c),
{
    let n = s.unicode_len();
    let mut i: usize = 0;
    while i < n
        invariant
            i <= n,
            n == s@.len(),
            forall|j: int| 0 <= j < i ==> s@[j] != c,
        decreases n - i,
    {
        if s.get_char(i) == c {
            proof {
                assert(s@[i as int] == c);
            }
            return false;
        }
        i = i + 1;
    }
    true
}

/// Splits `s` at every occurrence of `sep`, like the specification split.
pub fn split_str(s: &str, sep: char) -> (r: Vec<String>)
    ensures
        seq_views(r@) =~~= split_seq(s@, sep),
{
    let n = s.unicode_len();
    let mut r: Vec<String> = Vec::new();
    let mut start: usize = 0;
    let mut i: usize = 0;
    proof {
        assert(s@.skip(0) =~= s@);
        assert(seq_views(r@) =~~= Seq::<Seq<char>>::empty());
        assert(split_seq(s@, sep) =~~= seq_views(r@) + split_seq(s@.skip(0), sep));
    }
    while i < n
        invariant
            start <= i <= n,
            n == s@.len(),
            free_of(s@.subrange(start as int, i as int), sep),
            split_seq(s@, sep) =~~= seq_views(r@) + split_seq(s@.skip(start as int), sep),
        decreases n - i,
    {
        if s.get_char(i) == sep {
            let piece = s.substring_char(start, i).to_owned();
            proof {
                lemma_split_concat(
                    s@.subrange(start as int, i as int),
                    s@.skip(i as int + 1),
                    sep,
                );
                assert(s@.skip(start as int) =~= s@.subrange(start as int, i as int) + seq![sep]
                    + s@.skip(i as int + 1));
                assert(seq_views(r@.push(piece)) =~~= seq_views(r@).push(piece@));
            }
            r.push(piece);
            start = i + 1;
            proof {
                assert(split_seq(s@, sep) =~~= seq_views(r@) + split_seq(
                    s@.skip(start as int),
                    sep,
                ));
            }
        } else {
            proof {
                assert(s@.subrange(start as int, i as int + 1) =~= s@.subrange(
                    start as int,
                    i as int,
                ).push(s@[i as int]));
            }
        }
        i = i + 1;
    }
    let piece = s.substring_char(start, n).to_owned();
    proof {
        assert(s@.subrange(start as int, n as int) =~= s@.skip(start as int));
        lemma_split_no_sep(s@.skip(start as int), sep);
        assert(seq_views(r@.push(piece)) =~~= seq_views(r@).push(piece@));
    }
    r.push(piece);
    r
}

/// Joins the pieces with the one-character separator `sep_str` (whose single
/// character is `sep`).
pub fn join_strs(v: &Vec<String>, sep: char, sep_str: &str) -> (r: String)
    requires
        sep_str@ == seq![sep],
    ensures
        r@ == join_seq(seq_views(v@), sep),
{
    let ghost sv = seq_views(v@);
    let mut r = String::new();
    if v.len() == 0 {
        return r;
    }
    let mut i: usize = 0;
    proof {
        assert(sv.skip(0) =~~= sv);
        assert(join_seq(sv, sep) =~= r@ + join_seq(sv.skip(0), sep));
    }
    while i < v.len()
        invariant
            i <= v@.len(),
            v@.len() >= 1,
            sv == seq_views(v@),
            sep_str@ == seq![sep],
            join_seq(sv, sep) =~= r@ + join_seq(sv.skip(i as int), sep),
            i < v@.len() || join_seq(sv.skip(i as int), sep) =~= Seq::<char>::empty(),
        decreases v@.len() - i,
    {
        r.append(v[i].as_str());
        if i + 1 < v.len() {
            r.append(sep_str);
            proof {
                assert(sv.skip(i as int).len() >= 2);
                assert(sv.skip(i as int)[0] == sv[i as int]);
                assert(sv.skip(i as int).skip(1) =~~= sv.skip(i as int + 1));
                assert(join_seq(sv.skip(i as int), sep) =~= sv[i as int] + seq![sep] + join_seq(
                    sv.skip(i as int + 1),
                    sep,
                ));
            }
        } else {
            proof {
                assert(sv.skip(i as int).len() == 1);
                assert(join_seq(sv.skip(i as int), sep) =~= sv[i as int]);
                assert(sv.skip(i as int + 1) =~~= Seq::<Seq<char>>::empty());
            }
        }
        i = i + 1;
    }
    proof {
        assert(join_seq(sv, sep) =~= r@);
    }
    r
}

} // verus!
