//! Small verified helpers for strings and POSIX-style relative paths:
//! equality, joining with `/`, and splitting into segments.

use vstd::prelude::*;

verus! {

/// String equality by contents.
pub fn str_eq(a: &str, b: &str) -> (r: bool)
    ensures
        r == (a@ == b@),
{
    let sa = a.to_owned();
    let sb = b.to_owned();
    sa == sb
}

/// `dir` and `name` joined with a slash; an empty `dir` stands for the root
/// and adds no slash.
pub open spec fn spec_join(dir: Seq<char>, name: Seq<char>) -> Seq<char> {
    if dir.len() == 0 {
        name
    } else {
        dir + seq!['/'] + name
    }
}

/// Joins a directory path and a child name as `spec_join` lays out.
pub fn join_path(dir: &str, name: &str) -> (r: String)
    ensures
        r@ == spec_join(dir@, name@),
{
    proof {
        reveal_strlit("/");
    }
    if dir.unicode_len() == 0 {
        name.to_owned()
    } else {
        let mut s = dir.to_owned();
        s.append("/");
        s.append(name);
        proof {
            assert(s@ =~= spec_join(dir@, name@));
        }
        s
    }
}

/// The pieces of `s` between occurrences of the separator `sep`. An
/// empty input has one empty piece; separators at the ends or doubled
/// produce empty pieces.
pub open spec fn split_sep(s: Seq<char>, sep: char) -> Seq<Seq<char>>
    decreases s.len(),
{
    if s.len() == 0 {
        seq![Seq::<char>::empty()]
    } else if s[0] == sep {
        seq![Seq::<char>::empty()] + split_sep(s.skip(1), sep)
    } else {
        let rest = split_sep(s.skip(1), sep);
        seq![seq![s[0]] + rest[0]] + rest.skip(1)
    }
}

/// The `/`-separated segments of a path.
pub open spec fn split_path(s: Seq<char>) -> Seq<Seq<char>> {
    split_sep(s, '/')
}

/// Splitting never yields an empty list of pieces.
pub proof fn lemma_split_sep_len(s: Seq<char>, sep: char)
    ensures
        split_sep(s, sep).len() >= 1,
    decreases s.len(),
{
    if s.len() == 0 {
    } else {
        lemma_split_sep_len(s.skip(1), sep);
    }
}

/// Pieces distribute over joining with a separator: the pieces of
/// `a + sep + b` are the pieces of `a` followed by those of `b`.
pub proof fn lemma_split_sep_append(a: Seq<char>, b: Seq<char>, sep: char)
    ensures
        split_sep(a + seq![sep] + b, sep) == split_sep(a, sep) + split_sep(b, sep),
    decreases a.len(),
{
    lemma_split_sep_len(a, sep);
    lemma_split_sep_len(b, sep);
    if a.len() == 0 {
        assert(a + seq![sep] + b =~= seq![sep] + b);
        assert((seq![sep] + b)[0] == sep);
        assert((seq![sep] + b).skip(1) =~= b);
        assert(split_sep(a, sep) =~= seq![Seq::<char>::empty()]);
        assert(split_sep(a + seq![sep] + b, sep) =~= split_sep(a, sep) + split_sep(b, sep));
    } else {
        let s = a + seq![sep] + b;
        assert(s[0] == a[0]);
        assert(s.skip(1) =~= a.skip(1) + seq![sep] + b);
        lemma_split_sep_append(a.skip(1), b, sep);
        if a[0] == sep {
            assert(split_sep(s, sep) == seq![Seq::<char>::empty()] + split_sep(s.skip(1), sep));
            assert(split_sep(s, sep) =~= split_sep(a, sep) + split_sep(b, sep));
        } else {
            let rest = split_sep(s.skip(1), sep);
            let resta = split_sep(a.skip(1), sep);
            assert(rest == resta + split_sep(b, sep));
            assert(rest[0] == resta[0]);
            assert(rest.skip(1) =~= resta.skip(1) + split_sep(b, sep));
            assert(split_sep(s, sep) =~= split_sep(a, sep) + split_sep(b, sep));
        }
    }
}

/// A piece with no separator in it is its own single piece.
pub proof fn lemma_split_sep_none(s: Seq<char>, sep: char)
    requires
        forall|j: int| 0 <= j < s.len() ==> s[j] != sep,
    ensures
        split_sep(s, sep) == seq![s],
    decreases s.len(),
{
    if s.len() == 0 {
        assert(s =~= Seq::<char>::empty());
        assert(split_sep(s, sep) =~~= seq![s]);
    } else {
        lemma_split_sep_none(s.skip(1), sep);
        assert(seq![s[0]] + s.skip(1) =~= s);
        assert(split_sep(s, sep) =~~= seq![s]);
    }
}

} // verus!
