//! Searching character sequences: first occurrence of a pattern, last occurrence of a
//! character, and the pieces of a string around a separator.
use vstd::prelude::*;

verus! {

/// The first index `k >= i` at which `p` occurs in `s` (`str::find` from `i`).
pub open spec fn find_sub_from(s: Seq<char>, p: Seq<char>, i: nat) -> Option<nat>
    decreases s.len() - i,
{
    if i >= s.len() || i + p.len() > s.len() {
        None
    } else if s.subrange(i as int, (i + p.len()) as int) == p {
        Some(i)
    } else {
        find_sub_from(s, p, i + 1)
    }
}

/// The first index at which `p` occurs in `s`.
pub open spec fn find_sub(s: Seq<char>, p: Seq<char>) -> Option<nat> {
    find_sub_from(s, p, 0)
}

/// What `find_sub_from` returns is an occurrence at or after `i`, with none between.
pub proof fn lemma_find_sub_from(s: Seq<char>, p: Seq<char>, i: nat)
    ensures
        match find_sub_from(s, p, i) {
            Some(k) => i <= k && k + p.len() <= s.len() && k < s.len() && s.subrange(
                k as int,
                (k + p.len()) as int,
            ) == p && forall|j: nat| i <= j < k ==> #[trigger] s.subrange(j as int, (j + p.len()) as int) != p,
            None => forall|j: nat|
                i <= j && j < s.len() && j + p.len() <= s.len() ==> #[trigger] s.subrange(
                    j as int,
                    (j + p.len()) as int,
                ) != p,
        },
    decreases s.len() - i,
{
    if i >= s.len() || i + p.len() > s.len() {
    } else if s.subrange(i as int, (i + p.len()) as int) == p {
    } else {
        lemma_find_sub_from(s, p, i + 1);
    }
}

/// The first occurrence of a single character, from a position where it occurs with none before.
pub proof fn lemma_find_char_first(s: Seq<char>, c: char, k: nat, i: nat)
    requires
        i <= k < s.len(),
        s[k as int] == c,
        forall|j: int| i <= j < k ==> s[j] != c,
    ensures
        find_sub_from(s, seq![c], i) == Some(k),
    decreases k - i,
{
    if i < k {
        assert(s.subrange(i as int, (i + 1) as int)[0] == s[i as int]);
        lemma_find_char_first(s, c, k, i + 1);
    } else {
        assert(s.subrange(k as int, (k + 1) as int) =~= seq![c]);
    }
}

/// `s` up to the first `p`, or all of `s` when `p` does not occur (`split(p).next()`).
pub open spec fn before_sub(s: Seq<char>, p: Seq<char>) -> Seq<char> {
    match find_sub(s, p) {
        Some(k) => s.take(k as int),
        None => s,
    }
}

/// `s` after the first `p`, when `p` occurs.
pub open spec fn after_sub(s: Seq<char>, p: Seq<char>) -> Option<Seq<char>> {
    match find_sub(s, p) {
        Some(k) => Some(s.skip((k + p.len()) as int)),
        None => None,
    }
}

/// The second piece of `s` split at `p` (`split(p).nth(1)`).
pub open spec fn second_piece(s: Seq<char>, p: Seq<char>) -> Option<Seq<char>> {
    match after_sub(s, p) {
        Some(r) => Some(before_sub(r, p)),
        None => None,
    }
}

/// The index of the last `c` in `s` (`str::rfind`).
pub open spec fn last_index_of(s: Seq<char>, c: char) -> Option<nat>
    decreases s.len(),
{
    if s.len() == 0 {
        None
    } else if s.last() == c {
        Some((s.len() - 1) as nat)
    } else {
        last_index_of(s.drop_last(), c)
    }
}

/// What `last_index_of` returns is the position of a `c` with none after it.
pub proof fn lemma_last_index_of(s: Seq<char>, c: char)
    ensures
        match last_index_of(s, c) {
            Some(k) => k < s.len() && s[k as int] == c && forall|j: int| k < j < s.len() ==> s[j] != c,
            None => forall|j: int| 0 <= j < s.len() ==> s[j] != c,
        },
    decreases s.len(),
{
    if s.len() > 0 && s.last() != c {
        lemma_last_index_of(s.drop_last(), c);
        assert forall|j: int| 0 <= j < s.len() - 1 implies s.drop_last()[j] == s[j] by {}
    }
}

/// `v[from..to]` as a new vector.
pub fn sub_vec(v: &Vec<char>, from: usize, to: usize) -> (res: Vec<char>)
    requires
        from <= to <= v@.len(),
    ensures
        res@ == v@.subrange(from as int, to as int),
{
    let mut res: Vec<char> = Vec::new();
    let mut i = from;
    while i < to
        invariant
            from <= i <= to <= v@.len(),
            res@ == v@.subrange(from as int, i as int),
        decreases to - i,
    {
        res.push(v[i]);
        i = i + 1;
    }
    res
}

/// `a` followed by `b`, as a new vector.
pub fn concat(a: &Vec<char>, b: &Vec<char>) -> (res: Vec<char>)
    ensures
        res@ == a@ + b@,
{
    let mut res = sub_vec(a, 0, a.len());
    let mut rest = sub_vec(b, 0, b.len());
    assert(a@.subrange(0, a@.len() as int) =~= a@);
    assert(b@.subrange(0, b@.len() as int) =~= b@);
    res.append(&mut rest);
    res
}

/// The first index at or after `from` where `p` occurs in `v`.
pub fn find_sub_exec(v: &Vec<char>, from: usize, p: &Vec<char>) -> (res: Option<usize>)
    requires
        from <= v@.len(),
    ensures
        match res {
            Some(k) => find_sub_from(v@, p@, from as nat) == Some(k as nat),
            None => find_sub_from(v@, p@, from as nat) is None,
        },
{
    let mut i = from;
    while i < v.len() && p.len() <= v.len() - i
        invariant
            from <= i <= v@.len(),
            find_sub_from(v@, p@, from as nat) == find_sub_from(v@, p@, i as nat),
        decreases v@.len() - i,
    {
        if crate::text::seq_starts_with(v, i, p) {
            assert(v@.subrange(i as int, v@.len() as int).subrange(0, p@.len() as int) =~= v@.subrange(
                i as int,
                i + p@.len(),
            ));
            return Some(i);
        }
        proof {
            if v@.subrange(i as int, i + p@.len()) == p@ {
                assert(v@.subrange(i as int, v@.len() as int).subrange(0, p@.len() as int)
                    =~= v@.subrange(i as int, i + p@.len()));
            }
        }
        i = i + 1;
    }
    None
}

/// The index of the last `c` in `v`.
pub fn last_index_exec(v: &Vec<char>, c: char) -> (res: Option<usize>)
    ensures
        match res {
            Some(k) => last_index_of(v@, c) == Some(k as nat),
            None => last_index_of(v@, c) is None,
        },
{
    proof {
        lemma_last_index_of(v@, c);
    }
    let r = crate::text::rfind_char(v, v.len(), c);
    match r {
        Some(i) => {
            proof {
                match last_index_of(v@, c) {
                    Some(k) => {
                        if (k as int) < (i as int) {
                            assert(v@[i as int] == c);
                        } else if (k as int) > (i as int) {
                            assert(v@[k as int] == c);
                        }
                    },
                    None => {
                        assert(v@[i as int] == c);
                    },
                }
            }
            r
        },
        None => {
            proof {
                match last_index_of(v@, c) {
                    Some(k) => {
                        assert(v@[k as int] == c);
                    },
                    None => {},
                }
            }
            r
        },
    }
}

/// `v` up to the first `p` (all of it when `p` does not occur).
pub fn before_sub_exec(v: &Vec<char>, p: &Vec<char>) -> (res: Vec<char>)
    ensures
        res@ == before_sub(v@, p@),
{
    proof {
        lemma_find_sub_from(v@, p@, 0);
    }
    match find_sub_exec(v, 0, p) {
        Some(k) => sub_vec(v, 0, k),
        None => {
            let r = sub_vec(v, 0, v.len());
            assert(v@.subrange(0, v@.len() as int) =~= v@);
            r
        },
    }
}

/// `v` after the first `p`, when `p` occurs.
pub fn after_sub_exec(v: &Vec<char>, p: &Vec<char>) -> (res: Option<Vec<char>>)
    ensures
        match res {
            Some(r) => after_sub(v@, p@) == Some(r@),
            None => after_sub(v@, p@) is None,
        },
{
    proof {
        lemma_find_sub_from(v@, p@, 0);
    }
    match find_sub_exec(v, 0, p) {
        Some(k) => {
            let plen = p.len();
            let vlen = v.len();
            assert(k + plen <= vlen);
            let r = sub_vec(v, k + plen, vlen);
            assert(r@ =~= v@.skip(k + p@.len()));
            Some(r)
        },
        None => None,
    }
}

/// The second piece of `v` split at `p`.
pub fn second_piece_exec(v: &Vec<char>, p: &Vec<char>) -> (res: Option<Vec<char>>)
    ensures
        match res {
            Some(r) => second_piece(v@, p@) == Some(r@),
            None => second_piece(v@, p@) is None,
        },
{
    match after_sub_exec(v, p) {
        Some(r) => Some(before_sub_exec(&r, p)),
        None => None,
    }
}

} // verus!
