//! Sequences of bytes and characters: searching and splitting.
//!
//! The specification functions are generic in the element type, so the wire
//! parser (bytes) and the field parsers (characters) share one vocabulary.

use vstd::prelude::*;

verus! {

/// `pat` occurs in `s` at index `i`.
pub open spec fn matches_at<A>(s: Seq<A>, pat: Seq<A>, i: int) -> bool {
    &&& 0 <= i
    &&& i + pat.len() <= s.len()
    &&& s.subrange(i, i + pat.len()) == pat
}

/// `i` is the leftmost index at which `pat` occurs in `s`.
pub open spec fn is_first_match<A>(s: Seq<A>, pat: Seq<A>, i: int) -> bool {
    &&& matches_at(s, pat, i)
    &&& forall|j: int| 0 <= j < i ==> !matches_at(s, pat, j)
}

/// `i` is the rightmost index at which `pat` occurs in `s`.
pub open spec fn is_last_match<A>(s: Seq<A>, pat: Seq<A>, i: int) -> bool {
    &&& matches_at(s, pat, i)
    &&& forall|j: int| i < j ==> !matches_at(s, pat, j)
}

/// The leftmost index at which `pat` occurs in `s`, if it occurs at all.
pub open spec fn first_match<A>(s: Seq<A>, pat: Seq<A>) -> Option<int> {
    if exists|i: int| matches_at(s, pat, i) {
        Some(choose|i: int| is_first_match(s, pat, i))
    } else {
        None
    }
}

/// The rightmost index at which `pat` occurs in `s`, if it occurs at all.
pub open spec fn last_match<A>(s: Seq<A>, pat: Seq<A>) -> Option<int> {
    if exists|i: int| matches_at(s, pat, i) {
        Some(choose|i: int| is_last_match(s, pat, i))
    } else {
        None
    }
}

/// `s` cut in two at the leftmost occurrence of `sep`, which belongs to
/// neither half.
pub open spec fn split_once<A>(s: Seq<A>, sep: Seq<A>) -> Option<(Seq<A>, Seq<A>)> {
    match first_match(s, sep) {
        Some(i) => Some((s.subrange(0, i), s.subrange(i + sep.len(), s.len() as int))),
        None => None,
    }
}

/// `s` cut in two at the rightmost occurrence of `sep`.
pub open spec fn rsplit_once<A>(s: Seq<A>, sep: Seq<A>) -> Option<(Seq<A>, Seq<A>)> {
    match last_match(s, sep) {
        Some(i) => Some((s.subrange(0, i), s.subrange(i + sep.len(), s.len() as int))),
        None => None,
    }
}

/// Each element of `s` as a sequence of length one.
pub open spec fn singletons<A>(s: Seq<A>) -> Seq<Seq<A>> {
    Seq::new(s.len(), |i: int| seq![s[i]])
}

/// The pieces of `s` between the occurrences of `sep`, from left to right.
/// There is always at least one piece. An empty separator occurs between any
/// two elements and at both ends.
pub open spec fn split<A>(s: Seq<A>, sep: Seq<A>) -> Seq<Seq<A>>
    decreases s.len(),
{
    if sep.len() == 0 {
        seq![Seq::<A>::empty()] + singletons(s) + seq![Seq::<A>::empty()]
    } else {
        match first_match(s, sep) {
            Some(i) => if 0 <= i && i + sep.len() <= s.len() {
                seq![s.subrange(0, i)] + split(s.subrange(i + sep.len(), s.len() as int), sep)
            } else {
                seq![s]
            },
            None => seq![s],
        }
    }
}

/// The sequences that the vectors of `pieces` stand for.
pub open spec fn views<A>(pieces: Seq<Vec<A>>) -> Seq<Seq<A>> {
    pieces.map_values(|p: Vec<A>| p@)
}

/// A match that has no match before it is the first match.
pub proof fn lemma_first_match_is<A>(s: Seq<A>, pat: Seq<A>, i: int)
    requires
        is_first_match(s, pat, i),
    ensures
        first_match(s, pat) == Some(i),
{
    let k = choose|k: int| is_first_match(s, pat, k);
    assert(is_first_match(s, pat, k));
    if k < i {
        assert(!matches_at(s, pat, k));
    } else if i < k {
        assert(!matches_at(s, pat, i));
    }
}

/// A match that has no match after it is the last match.
pub proof fn lemma_last_match_is<A>(s: Seq<A>, pat: Seq<A>, i: int)
    requires
        is_last_match(s, pat, i),
    ensures
        last_match(s, pat) == Some(i),
{
    let k = choose|k: int| is_last_match(s, pat, k);
    assert(is_last_match(s, pat, k));
    if k < i {
        assert(!matches_at(s, pat, i));
    } else if i < k {
        assert(!matches_at(s, pat, k));
    }
}

/// Where there is a match at all, there is a leftmost one.
proof fn lemma_leftmost_exists<A>(s: Seq<A>, pat: Seq<A>, i: int)
    requires
        matches_at(s, pat, i),
    ensures
        exists|k: int| is_first_match(s, pat, k),
    decreases i,
{
    if forall|j: int| 0 <= j < i ==> !matches_at(s, pat, j) {
        assert(is_first_match(s, pat, i));
    } else {
        let j = choose|j: int| 0 <= j < i && matches_at(s, pat, j);
        lemma_leftmost_exists(s, pat, j);
    }
}

/// Where there is a match at all, there is a rightmost one.
proof fn lemma_rightmost_exists<A>(s: Seq<A>, pat: Seq<A>, i: int)
    requires
        matches_at(s, pat, i),
    ensures
        exists|k: int| is_last_match(s, pat, k),
    decreases s.len() - i,
{
    if forall|j: int| i < j ==> !matches_at(s, pat, j) {
        assert(is_last_match(s, pat, i));
    } else {
        let j = choose|j: int| i < j && matches_at(s, pat, j);
        lemma_rightmost_exists(s, pat, j);
    }
}

/// What `first_match` returns is the leftmost match, and it returns one
/// exactly if `pat` occurs.
pub proof fn lemma_first_match<A>(s: Seq<A>, pat: Seq<A>)
    ensures
        first_match(s, pat) matches Some(i) ==> is_first_match(s, pat, i),
        first_match(s, pat) is None ==> forall|j: int| !matches_at(s, pat, j),
{
    if exists|i: int| matches_at(s, pat, i) {
        let i = choose|i: int| matches_at(s, pat, i);
        lemma_leftmost_exists(s, pat, i);
    }
}

/// What `last_match` returns is the rightmost match, and it returns one
/// exactly if `pat` occurs.
pub proof fn lemma_last_match<A>(s: Seq<A>, pat: Seq<A>)
    ensures
        last_match(s, pat) matches Some(i) ==> is_last_match(s, pat, i),
        last_match(s, pat) is None ==> forall|j: int| !matches_at(s, pat, j),
{
    if exists|i: int| matches_at(s, pat, i) {
        let i = choose|i: int| matches_at(s, pat, i);
        lemma_rightmost_exists(s, pat, i);
    }
}

/// A match in what is left of `s` from index `from` on is a match in `s`,
/// `from` places further right.
pub proof fn lemma_matches_at_suffix<A>(s: Seq<A>, pat: Seq<A>, from: int, i: int)
    requires
        0 <= from <= s.len(),
        0 <= i,
    ensures
        matches_at(s.subrange(from, s.len() as int), pat, i) == matches_at(s, pat, from + i),
{
    let rest = s.subrange(from, s.len() as int);
    if i + pat.len() <= rest.len() {
        assert(rest.subrange(i, i + pat.len()) =~= s.subrange(from + i, from + i + pat.len()));
    }
}

/// Splitting gives at least one piece.
pub proof fn lemma_split_has_pieces<A>(s: Seq<A>, sep: Seq<A>)
    ensures
        split(s, sep).len() >= 1,
{
}

/// The elements of `v` from index `from` up to, not including, `to`.
pub(crate) fn copy_range<T: Copy>(v: &[T], from: usize, to: usize) -> (r: Vec<T>)
    requires
        from <= to <= v@.len(),
    ensures
        r@ == v@.subrange(from as int, to as int),
{
    let mut r: Vec<T> = Vec::new();
    let mut i: usize = from;
    while i < to
        invariant
            from <= i <= to <= v@.len(),
            r@ == v@.subrange(from as int, i as int),
        decreases to - i,
    {
        r.push(v[i]);
        i += 1;
    }
    r
}

/// Whether `pat` occurs in the bytes `s` at index `i`.
pub fn bytes_match_at(s: &[u8], pat: &[u8], i: usize) -> (b: bool)
    ensures
        b == matches_at(s@, pat@, i as int),
{
    if pat.len() > s.len() || i > s.len() - pat.len() {
        return false;
    }
    let mut k: usize = 0;
    while k < pat.len()
        invariant
            k <= pat@.len(),
            i + pat@.len() <= s@.len() <= usize::MAX,
            forall|j: int| 0 <= j < k ==> s@[i + j] == pat@[j],
        decreases pat.len() - k,
    {
        if s[i + k] != pat[k] {
            assert(s@.subrange(i as int, i + pat@.len())[k as int] != pat@[k as int]);
            return false;
        }
        k += 1;
    }
    assert(s@.subrange(i as int, i + pat@.len()) =~= pat@);
    true
}

/// Whether `pat` occurs in the characters `s` at index `i`.
pub fn chars_match_at(s: &[char], pat: &[char], i: usize) -> (b: bool)
    ensures
        b == matches_at(s@, pat@, i as int),
{
    if pat.len() > s.len() || i > s.len() - pat.len() {
        return false;
    }
    let mut k: usize = 0;
    while k < pat.len()
        invariant
            k <= pat@.len(),
            i + pat@.len() <= s@.len() <= usize::MAX,
            forall|j: int| 0 <= j < k ==> s@[i + j] == pat@[j],
        decreases pat.len() - k,
    {
        if s[i + k] != pat[k] {
            assert(s@.subrange(i as int, i + pat@.len())[k as int] != pat@[k as int]);
            return false;
        }
        k += 1;
    }
    assert(s@.subrange(i as int, i + pat@.len()) =~= pat@);
    true
}

/// The leftmost index at which `pat` occurs in the bytes `s`.
pub fn find_bytes(s: &[u8], pat: &[u8]) -> (r: Option<usize>)
    ensures
        match r {
            Some(i) => first_match(s@, pat@) == Some(i as int),
            None => first_match(s@, pat@) is None,
        },
{
    let mut i: usize = 0;
    while i < s.len()
        invariant
            i <= s@.len(),
            forall|j: int| 0 <= j < i ==> !matches_at(s@, pat@, j),
        decreases s.len() - i,
    {
        if bytes_match_at(s, pat, i) {
            proof {
                lemma_first_match_is(s@, pat@, i as int);
            }
            return Some(i);
        }
        i += 1;
    }
    if bytes_match_at(s, pat, i) {
        proof {
            lemma_first_match_is(s@, pat@, i as int);
        }
        Some(i)
    } else {
        None
    }
}

/// The leftmost index from `from` on at which `pat` occurs in the
/// characters `s`.
pub(crate) fn find_chars_from(s: &[char], pat: &[char], from: usize) -> (r: Option<usize>)
    requires
        from <= s@.len(),
    ensures
        match r {
            Some(i) => from <= i && first_match(s@.subrange(from as int, s@.len() as int), pat@)
                == Some(i - from),
            None => first_match(s@.subrange(from as int, s@.len() as int), pat@) is None,
        },
{
    let ghost rest = s@.subrange(from as int, s@.len() as int);
    let mut i: usize = from;
    while i < s.len()
        invariant
            from <= i <= s@.len(),
            forall|j: int| from <= j < i ==> !matches_at(s@, pat@, j),
        ensures
            i == s@.len() || matches_at(s@, pat@, i as int),
        decreases s.len() - i,
    {
        if chars_match_at(s, pat, i) {
            break ;
        }
        i += 1;
    }
    if chars_match_at(s, pat, i) {
        proof {
            lemma_matches_at_suffix(s@, pat@, from as int, i - from);
            assert forall|j: int| 0 <= j < i - from implies !matches_at(rest, pat@, j) by {
                lemma_matches_at_suffix(s@, pat@, from as int, j);
            }
            lemma_first_match_is(rest, pat@, i - from);
        }
        Some(i)
    } else {
        proof {
            assert forall|j: int| !matches_at(rest, pat@, j) by {
                if 0 <= j {
                    lemma_matches_at_suffix(s@, pat@, from as int, j);
                }
            }
        }
        None
    }
}

/// The leftmost index at which `pat` occurs in the characters `s`.
pub fn find_chars(s: &[char], pat: &[char]) -> (r: Option<usize>)
    ensures
        match r {
            Some(i) => first_match(s@, pat@) == Some(i as int),
            None => first_match(s@, pat@) is None,
        },
{
    assert(s@.subrange(0, s@.len() as int) =~= s@);
    find_chars_from(s, pat, 0)
}

/// The rightmost index at which `pat` occurs in the characters `s`.
pub fn rfind_chars(s: &[char], pat: &[char]) -> (r: Option<usize>)
    ensures
        match r {
            Some(i) => last_match(s@, pat@) == Some(i as int),
            None => last_match(s@, pat@) is None,
        },
{
    let mut i: usize = s.len();
    loop
        invariant
            i <= s@.len(),
            forall|j: int| i < j ==> !matches_at(s@, pat@, j),
        decreases i,
    {
        if chars_match_at(s, pat, i) {
            proof {
                lemma_last_match_is(s@, pat@, i as int);
            }
            return Some(i);
        }
        if i == 0 {
            return None;
        }
        i -= 1;
    }
}

/// The bytes `s` cut in two at the leftmost occurrence of `delimiter`.
pub fn split_once_bytes(s: &[u8], delimiter: &[u8]) -> (r: Option<(Vec<u8>, Vec<u8>)>)
    ensures
        match r {
            Some((left, right)) => split_once(s@, delimiter@) == Some((left@, right@)),
            None => split_once(s@, delimiter@) is None,
        },
{
    match find_bytes(s, delimiter) {
        Some(i) => {
            proof {
                lemma_first_match(s@, delimiter@);
            }
            let n = s.len();
            let left = copy_range(s, 0, i);
            let right = copy_range(s, i + delimiter.len(), n);
            Some((left, right))
        },
        None => None,
    }
}

/// The characters `s` cut in two at the leftmost occurrence of `sep`.
pub fn split_once_chars(s: &[char], sep: &[char]) -> (r: Option<(Vec<char>, Vec<char>)>)
    ensures
        match r {
            Some((left, right)) => split_once(s@, sep@) == Some((left@, right@)),
            None => split_once(s@, sep@) is None,
        },
{
    match find_chars(s, sep) {
        Some(i) => {
            proof {
                lemma_first_match(s@, sep@);
            }
            let n = s.len();
            let left = copy_range(s, 0, i);
            let right = copy_range(s, i + sep.len(), n);
            Some((left, right))
        },
        None => None,
    }
}

/// The characters `s` cut in two at the rightmost occurrence of `sep`.
pub fn rsplit_once_chars(s: &[char], sep: &[char]) -> (r: Option<(Vec<char>, Vec<char>)>)
    ensures
        match r {
            Some((left, right)) => rsplit_once(s@, sep@) == Some((left@, right@)),
            None => rsplit_once(s@, sep@) is None,
        },
{
    match rfind_chars(s, sep) {
        Some(i) => {
            proof {
                lemma_last_match(s@, sep@);
            }
            let n = s.len();
            let left = copy_range(s, 0, i);
            let right = copy_range(s, i + sep.len(), n);
            Some((left, right))
        },
        None => None,
    }
}

/// The pieces of the characters `s` between the occurrences of `sep`.
pub fn split_chars(s: &[char], sep: &[char]) -> (pieces: Vec<Vec<char>>)
    ensures
        views(pieces@) == split(s@, sep@),
{
    let mut pieces: Vec<Vec<char>> = Vec::new();
    if sep.len() == 0 {
        pieces.push(Vec::new());
        let mut i: usize = 0;
        while i < s.len()
            invariant
                i <= s@.len(),
                pieces@.len() == i + 1,
                pieces@[0]@ == Seq::<char>::empty(),
                forall|j: int| 0 <= j < i ==> (#[trigger] pieces@[j + 1])@ == seq![s@[j]],
            decreases s.len() - i,
        {
            let mut one: Vec<char> = Vec::new();
            one.push(s[i]);
            pieces.push(one);
            i += 1;
        }
        pieces.push(Vec::new());
        assert(views(pieces@) =~= split(s@, sep@)) by {
            let want = seq![Seq::<char>::empty()] + singletons(s@) + seq![Seq::<char>::empty()];
            assert(views(pieces@).len() == want.len());
            assert forall|j: int| 0 <= j < want.len() implies views(pieces@)[j] == want[j] by {
                if 0 < j && j < want.len() - 1 {
                    assert(pieces@[(j - 1) + 1]@ == seq![s@[j - 1]]);
                }
            }
        }
        return pieces;
    }
    let n = s.len();
    let mut from: usize = 0;
    assert(s@.subrange(0, n as int) =~= s@);
    assert(views(pieces@) =~= Seq::empty());
    loop
        invariant
            sep@.len() > 0,
            from <= n == s@.len(),
            split(s@, sep@) == views(pieces@) + split(s@.subrange(from as int, n as int), sep@),
        decreases n - from,
    {
        let ghost rest = s@.subrange(from as int, n as int);
        match find_chars_from(s, sep, from) {
            Some(i) => {
                proof {
                    lemma_first_match(rest, sep@);
                }
                let piece = copy_range(s, from, i);
                proof {
                    let tail = s@.subrange(i + sep@.len(), n as int);
                    assert(rest.subrange(0, i - from) =~= piece@);
                    assert(rest.subrange(i - from + sep@.len(), rest.len() as int) =~= tail);
                    assert(split(rest, sep@) == seq![piece@] + split(tail, sep@));
                    assert(views(pieces@.push(piece)) =~= views(pieces@) + seq![piece@]);
                    assert(views(pieces@) + (seq![piece@] + split(tail, sep@)) =~= (views(pieces@)
                        + seq![piece@]) + split(tail, sep@));
                }
                pieces.push(piece);
                from = i + sep.len();
            },
            None => {
                let piece = copy_range(s, from, n);
                proof {
                    assert(split(rest, sep@) == seq![rest]);
                    assert(views(pieces@.push(piece)) =~= views(pieces@) + seq![rest]);
                }
                pieces.push(piece);
                return pieces;
            },
        }
    }
}

} // verus!
