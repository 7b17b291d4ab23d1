use vstd::prelude::*;

verus! {

/// The pieces of `s` between occurrences of `sep`, in order; a string
/// without `sep` is one piece, and the empty string is one empty piece.
pub open spec fn split_on(s: Seq<char>, sep: char) -> Seq<Seq<char>>
    decreases s.len(),
{
    if s.len() == 0 {
        seq![Seq::<char>::empty()]
    } else {
        let rest = split_on(s.drop_last(), sep);
        if s.last() == sep {
            rest.push(Seq::<char>::empty())
        } else {
            rest.update(rest.len() - 1, rest.last().push(s.last()))
        }
    }
}

pub proof fn lemma_split_nonempty(s: Seq<char>, sep: char)
    ensures
        split_on(s, sep).len() >= 1,
    decreases s.len(),
{
    if s.len() > 0 {
        lemma_split_nonempty(s.drop_last(), sep);
    }
}

/// `p` occurs in `t` starting at position `k`.
pub open spec fn occurs_at(p: Seq<char>, t: Seq<char>, k: int) -> bool {
    &&& 0 <= k
    &&& k + p.len() <= t.len()
    &&& forall|i: int| 0 <= i < p.len() ==> p[i] == t[k + i]
}

/// `t` starts with `p`.
pub open spec fn is_prefix(p: Seq<char>, t: Seq<char>) -> bool {
    occurs_at(p, t, 0)
}

/// `p` occurs somewhere in `t`.
pub open spec fn occurs_in(p: Seq<char>, t: Seq<char>) -> bool {
    exists|k: int| occurs_at(p, t, k)
}

/// The first position at or after `i` where `"><"` starts in `s`, or -1.
pub open spec fn range_sep_from(s: Seq<char>, i: int) -> int
    decreases s.len() - i,
{
    if i < 0 || i + 1 >= s.len() {
        -1
    } else if s[i] == '>' && s[i + 1] == '<' {
        i
    } else {
        range_sep_from(s, i + 1)
    }
}

pub proof fn lemma_range_sep_bounds(s: Seq<char>, i: int)
    ensures
        range_sep_from(s, i) == -1 || (i <= range_sep_from(s, i) && range_sep_from(s, i) + 2
            <= s.len()),
    decreases s.len() - i,
{
    if !(i < 0 || i + 1 >= s.len()) && !(s[i] == '>' && s[i + 1] == '<') {
        lemma_range_sep_bounds(s, i + 1);
    }
}

/// The characters of a string, one by one.
pub fn chars_of(s: &str) -> (r: Vec<char>)
    ensures
        r@ == s@,
{
    let n = s.unicode_len();
    let mut r: Vec<char> = Vec::new();
    let mut i: usize = 0;
    while i < n
        invariant
            n == s@.len(),
            i <= n,
            r@ =~= s@.take(i as int),
        decreases n - i,
    {
        r.push(s.get_char(i));
        i = i + 1;
        assert(r@ =~= s@.take(i as int));
    }
    assert(s@.take(n as int) =~= s@);
    r
}

/// Whether `p` occurs in `t` at position `k`.
pub fn occurs_at_exec(p: &Vec<char>, t: &Vec<char>, k: usize) -> (r: bool)
    ensures
        r == occurs_at(p@, t@, k as int),
{
    if p.len() > t.len() || k > t.len() - p.len() {
        return false;
    }
    let mut i: usize = 0;
    while i < p.len()
        invariant
            k + p@.len() <= t@.len(),
            t@.len() == t.len(),
            i <= p@.len(),
            forall|j: int| 0 <= j < i ==> p@[j] == t@[k + j],
        decreases p@.len() - i,
    {
        if p[i] != t[k + i] {
            return false;
        }
        i = i + 1;
    }
    true
}

/// Whether `target` starts with `prefix`.
pub fn starts_with(target: &str, prefix: &str) -> (r: bool)
    ensures
        r == is_prefix(prefix@, target@),
{
    let t = chars_of(target);
    let p = chars_of(prefix);
    occurs_at_exec(&p, &t, 0)
}

/// Whether `needle` occurs anywhere in `target`.
pub fn contains_text(target: &str, needle: &str) -> (r: bool)
    ensures
        r == occurs_in(needle@, target@),
{
    let t = chars_of(target);
    let p = chars_of(needle);
    if p.len() > t.len() {
        return false;
    }
    let last = t.len() - p.len();
    let mut k: usize = 0;
    loop
        invariant_except_break
            p@ == needle@,
            t@ == target@,
            last + p@.len() == t@.len(),
            k <= last,
            forall|j: int| 0 <= j < k ==> !occurs_at(p@, t@, j),
        ensures
            last + p@.len() == t@.len(),
            forall|j: int| 0 <= j <= last ==> !occurs_at(p@, t@, j),
        decreases last - k,
    {
        if occurs_at_exec(&p, &t, k) {
            assert(occurs_at(needle@, target@, k as int));
            return true;
        }
        if k == last {
            break;
        }
        k = k + 1;
    }
    assert forall|j: int| !occurs_at(p@, t@, j) by {
        if 0 <= j && j + p@.len() <= t@.len() {
            assert(j <= last);
        }
    }
    false
}

/// The position of the first `"><"` in `s`, if any.
pub fn find_range_sep(s: &Vec<char>) -> (r: Option<usize>)
    ensures
        match r {
            Some(i) => range_sep_from(s@, 0) == i as int,
            None => range_sep_from(s@, 0) == -1,
        },
{
    let mut i: usize = 0;
    while s.len() > 1 && i < s.len() - 1
        invariant
            i <= s@.len(),
            range_sep_from(s@, 0) == range_sep_from(s@, i as int),
        decreases s@.len() - i,
    {
        if s[i] == '>' && s[i + 1] == '<' {
            return Some(i);
        }
        i = i + 1;
    }
    None
}

/// The pieces of `s` between commas.
pub fn split_commas(s: &str) -> (r: Vec<String>)
    ensures
        r@.len() == split_on(s@, ',').len(),
        forall|k: int| 0 <= k < r@.len() ==> r@[k]@ == split_on(s@, ',')[k],
{
    let cs = chars_of(s);
    let n = cs.len();
    let mut pieces: Vec<String> = Vec::new();
    let mut start: usize = 0;
    let mut i: usize = 0;
    assert(s@.take(0) =~= Seq::<char>::empty());
    while i < n
        invariant
            n == s@.len(),
            cs@ == s@,
            start <= i <= n,
            split_on(s@.take(i as int), ',').len() == pieces@.len() + 1,
            forall|k: int|
                0 <= k < pieces@.len() ==> pieces@[k]@ == split_on(s@.take(i as int), ',')[k],
            split_on(s@.take(i as int), ',').last() =~= s@.subrange(start as int, i as int),
        decreases n - i,
    {
        assert(s@.take(i + 1).drop_last() =~= s@.take(i as int));
        if cs[i] == ',' {
            pieces.push(s.substring_char(start, i).to_owned());
            start = i + 1;
        }
        i = i + 1;
    }
    pieces.push(s.substring_char(start, n).to_owned());
    assert(s@.take(n as int) =~= s@);
    pieces
}

} // verus!
