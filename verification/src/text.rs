//! Character-sequence operations the protocol is built from: splitting on a
//! separator and joining with one, over the `Seq<char>` view of strings.

use vstd::prelude::*;

verus! {

/// `s` begins with `p`.
pub open spec fn starts_with(s: Seq<char>, p: Seq<char>) -> bool {
    p.len() <= s.len() && s.subrange(0, p.len() as int) == p
}

/// Copies the characters of a string slice into a vector.
pub fn char_vec(s: &str) -> (v: Vec<char>)
    ensures
        v@ == s@,
{
    broadcast use vstd::string::group_string_axioms;
    let mut v: Vec<char> = Vec::new();
    for c in it: s.chars()
        invariant
            v@ == it.seq().take(it.index() as int),
            it.seq() == s@,
    {
        v.push(c);
    }
    v
}

/// `sep` occurs in `s` starting at index `j`.
pub open spec fn occurs_at(s: Seq<char>, sep: Seq<char>, j: int) -> bool {
    0 <= j && j + sep.len() <= s.len() && s.subrange(j, j + sep.len()) == sep
}

/// `sep` occurs somewhere in `s`.
pub open spec fn contains_seq(s: Seq<char>, sep: Seq<char>) -> bool {
    exists|j: int| occurs_at(s, sep, j)
}

/// No proper suffix of `sep` is also a prefix of it, so two occurrences of
/// `sep` can never overlap.
pub open spec fn border_free(sep: Seq<char>) -> bool {
    forall|d: int| 0 < d < sep.len() ==> #[trigger] sep.skip(d) != sep.take(sep.len() - d)
}

/// The pieces of `s` between the occurrences of a non-empty `sep`, where the
/// occurrences are found left to right and do not overlap (what `str::split`
/// yields for a string pattern). There is always at least one piece.
pub open spec fn split_seq(s: Seq<char>, sep: Seq<char>) -> Seq<Seq<char>>
    recommends
        sep.len() > 0,
    decreases s.len(),
{
    if sep.len() == 0 {
        seq![s]
    } else if starts_with(s, sep) {
        seq![Seq::<char>::empty()] + split_seq(s.skip(sep.len() as int), sep)
    } else if s.len() == 0 {
        seq![Seq::<char>::empty()]
    } else {
        let rest = split_seq(s.drop_first(), sep);
        rest.update(0, seq![s[0]] + rest[0])
    }
}

/// The pieces in order with `sep` between each two neighbours (what
/// `join` on a slice of strings yields).
pub open spec fn join_seq(parts: Seq<Seq<char>>, sep: Seq<char>) -> Seq<char>
    decreases parts.len(),
{
    if parts.len() == 0 {
        Seq::<char>::empty()
    } else if parts.len() == 1 {
        parts[0]
    } else {
        join_seq(parts.drop_last(), sep) + sep + parts.last()
    }
}

/// The character sequences of a sequence of strings.
pub open spec fn strings_view(v: Seq<String>) -> Seq<Seq<char>> {
    v.map_values(|x: String| x@)
}

/// Splitting always yields at least one piece.
pub proof fn lemma_split_nonempty(s: Seq<char>, sep: Seq<char>)
    requires
        sep.len() > 0,
    ensures
        split_seq(s, sep).len() >= 1,
    decreases s.len(),
{
    if starts_with(s, sep) {
        lemma_split_nonempty(s.skip(sep.len() as int), sep);
    } else if s.len() > 0 {
        lemma_split_nonempty(s.drop_first(), sep);
    }
}

/// A join of two or more pieces starts with the first piece and a separator.
pub proof fn lemma_join_front(parts: Seq<Seq<char>>, sep: Seq<char>)
    requires
        parts.len() >= 2,
    ensures
        join_seq(parts, sep) == parts[0] + sep + join_seq(parts.drop_first(), sep),
    decreases parts.len(),
{
    if parts.len() == 2 {
        assert(parts.drop_last() =~= seq![parts[0]]);
        assert(parts.drop_first() =~= seq![parts[1]]);
        assert(join_seq(parts.drop_last(), sep) == parts[0]);
        assert(join_seq(parts.drop_first(), sep) == parts[1]);
    } else {
        lemma_join_front(parts.drop_last(), sep);
        assert(parts.drop_last().drop_first() =~= parts.drop_first().drop_last());
        assert(parts.drop_first().last() == parts.last());
        assert(join_seq(parts, sep) =~= parts[0] + sep + join_seq(parts.drop_first(), sep));
    }
}

proof fn lemma_no_occurrence_drop_first(a: Seq<char>, sep: Seq<char>)
    requires
        a.len() > 0,
        !contains_seq(a, sep),
    ensures
        !contains_seq(a.drop_first(), sep),
{
    if contains_seq(a.drop_first(), sep) {
        let j = choose|j: int| occurs_at(a.drop_first(), sep, j);
        assert(a.subrange(j + 1, j + 1 + sep.len()) =~= a.drop_first().subrange(j, j + sep.len()));
        assert(occurs_at(a, sep, j + 1));
    }
}

/// A sequence without the separator splits into itself alone.
pub proof fn lemma_split_without_sep(a: Seq<char>, sep: Seq<char>)
    requires
        sep.len() > 0,
        !contains_seq(a, sep),
    ensures
        split_seq(a, sep) == seq![a],
    decreases a.len(),
{
    if starts_with(a, sep) {
        assert(occurs_at(a, sep, 0));
    } else if a.len() == 0 {
        assert(a =~= Seq::<char>::empty());
    } else {
        lemma_no_occurrence_drop_first(a, sep);
        lemma_split_without_sep(a.drop_first(), sep);
        assert(seq![a[0]] + a.drop_first() =~= a);
        assert(split_seq(a, sep) =~= seq![a]);
    }
}

/// A piece without the separator, followed by the separator, is cut off
/// exactly there.
pub proof fn lemma_split_after_piece(a: Seq<char>, sep: Seq<char>, rest: Seq<char>)
    requires
        sep.len() > 0,
        border_free(sep),
        !contains_seq(a, sep),
    ensures
        split_seq(a + sep + rest, sep) == seq![a] + split_seq(rest, sep),
    decreases a.len(),
{
    let s = a + sep + rest;
    let k = sep.len() as int;
    if a.len() == 0 {
        assert(s.subrange(0, k) =~= sep);
        assert(s.skip(k) =~= rest);
        assert(a =~= Seq::<char>::empty());
    } else {
        if starts_with(s, sep) {
            if a.len() >= k {
                assert(a.subrange(0, k) =~= s.subrange(0, k));
                assert(occurs_at(a, sep, 0));
            } else {
                let d = a.len() as int;
                assert forall|t: int| 0 <= t < k - d implies sep.skip(d)[t] == sep.take(k - d)[t] by {
                    assert(sep[d + t] == s.subrange(0, k)[d + t]);
                    assert(s[d + t] == sep[t]);
                }
                assert(sep.skip(d) =~= sep.take(k - d));
            }
        }
        assert(!starts_with(s, sep));
        lemma_no_occurrence_drop_first(a, sep);
        lemma_split_after_piece(a.drop_first(), sep, rest);
        assert(s.drop_first() =~= a.drop_first() + sep + rest);
        assert(seq![a[0]] + a.drop_first() =~= a);
        assert(s[0] == a[0]);
        assert(split_seq(s, sep) =~= seq![a] + split_seq(rest, sep));
    }
}

/// Splitting a join gives back the pieces, when there is at least one piece,
/// the separator cannot overlap itself and no piece contains it.
pub proof fn lemma_split_join(parts: Seq<Seq<char>>, sep: Seq<char>)
    requires
        parts.len() >= 1,
        sep.len() > 0,
        border_free(sep),
        forall|i: int| 0 <= i < parts.len() ==> !contains_seq(#[trigger] parts[i], sep),
    ensures
        split_seq(join_seq(parts, sep), sep) == parts,
    decreases parts.len(),
{
    if parts.len() == 1 {
        lemma_split_without_sep(parts[0], sep);
        assert(seq![parts[0]] =~= parts);
    } else {
        lemma_join_front(parts, sep);
        let tail = parts.drop_first();
        assert forall|i: int| 0 <= i < tail.len() implies !contains_seq(#[trigger] tail[i], sep) by {
            assert(tail[i] == parts[i + 1]);
        }
        lemma_split_join(tail, sep);
        assert(!contains_seq(parts[0], sep));
        lemma_split_after_piece(parts[0], sep, join_seq(tail, sep));
        assert(seq![parts[0]] + tail =~= parts);
    }
}

/// Joining the pieces of a split gives back the split sequence.
pub proof fn lemma_join_split(s: Seq<char>, sep: Seq<char>)
    requires
        sep.len() > 0,
    ensures
        join_seq(split_seq(s, sep), sep) == s,
    decreases s.len(),
{
    let k = sep.len() as int;
    if starts_with(s, sep) {
        let x = split_seq(s.skip(k), sep);
        lemma_split_nonempty(s.skip(k), sep);
        lemma_join_split(s.skip(k), sep);
        let whole = seq![Seq::<char>::empty()] + x;
        lemma_join_front(whole, sep);
        assert(whole.drop_first() =~= x);
        assert(s =~= Seq::<char>::empty() + sep + s.skip(k));
    } else if s.len() == 0 {
        assert(s =~= Seq::<char>::empty());
    } else {
        let r = split_seq(s.drop_first(), sep);
        lemma_split_nonempty(s.drop_first(), sep);
        lemma_join_split(s.drop_first(), sep);
        let u = r.update(0, seq![s[0]] + r[0]);
        if r.len() == 1 {
            assert(join_seq(u, sep) == u[0]);
        } else {
            lemma_join_front(u, sep);
            lemma_join_front(r, sep);
            assert(u.drop_first() =~= r.drop_first());
            assert(join_seq(u, sep) =~= seq![s[0]] + join_seq(r, sep));
        }
        assert(seq![s[0]] + s.drop_first() =~= s);
    }
}

/// Whether `pattern` occurs in `chars` starting at index `at`.
fn matches_at(chars: &Vec<char>, at: usize, pattern: &Vec<char>) -> (r: bool)
    requires
        at <= chars.len(),
    ensures
        r == starts_with(chars@.skip(at as int), pattern@),
{
    let k = pattern.len();
    if k > chars.len() - at {
        return false;
    }
    let mut j: usize = 0;
    while j < k
        invariant
            k == pattern.len(),
            at + k <= chars.len(),
            j <= k,
            forall|t: int| 0 <= t < j ==> chars@[at + t] == pattern@[t],
        decreases k - j,
    {
        if chars[at + j] != pattern[j] {
            assert(chars@.skip(at as int).subrange(0, k as int)[j as int] != pattern@[j as int]);
            return false;
        }
        j = j + 1;
    }
    assert(chars@.skip(at as int).subrange(0, k as int) =~= pattern@);
    true
}

/// Splits `s` at every occurrence of the non-empty `sep`, left to right,
/// like `str::split` with a string pattern.
pub fn split_on(s: &str, sep: &str) -> (parts: Vec<String>)
    requires
        sep@.len() > 0,
    ensures
        strings_view(parts@) == split_seq(s@, sep@),
{
    let chars = char_vec(s);
    let pattern = char_vec(sep);
    let n = chars.len();
    let k = pattern.len();
    let mut parts: Vec<String> = Vec::new();
    let mut start: usize = 0;
    let mut i: usize = 0;
    proof {
        lemma_split_nonempty(s@, sep@);
        let x = split_seq(s@, sep@);
        assert(s@.skip(0) =~= s@);
        assert(s@.subrange(0, 0) + x[0] =~= x[0]);
        assert(strings_view(parts@) =~= Seq::<Seq<char>>::empty());
        assert(x =~= strings_view(parts@) + seq![s@.subrange(0, 0) + x[0]] + x.drop_first());
    }
    while i < n
        invariant
            chars@ == s@,
            pattern@ == sep@,
            n == chars.len(),
            k == pattern.len(),
            k > 0,
            start <= i <= n,
            split_seq(s@, sep@) == strings_view(parts@) + seq![
                s@.subrange(start as int, i as int) + split_seq(s@.skip(i as int), sep@)[0],
            ] + split_seq(s@.skip(i as int), sep@).drop_first(),
        decreases n - i,
    {
        let ghost x = split_seq(s@.skip(i as int), sep@);
        let ghost old_view = strings_view(parts@);
        let ghost piece_before = s@.subrange(start as int, i as int);
        if matches_at(&chars, i, &pattern) {
            let piece = s.substring_char(start, i).to_owned();
            parts.push(piece);
            proof {
                let y = split_seq(s@.skip(i + k), sep@);
                assert(s@.skip(i as int).skip(k as int) =~= s@.skip(i + k));
                lemma_split_nonempty(s@.skip(i + k), sep@);
                assert(x =~= seq![Seq::<char>::empty()] + y);
                assert(strings_view(parts@) =~= old_view.push(piece_before));
                assert(s@.subrange(i + k, i + k) + y[0] =~= y[0]);
                assert(piece_before + x[0] =~= piece_before);
                assert(x.drop_first() =~= y);
                assert(y =~= seq![y[0]] + y.drop_first());
                assert(old_view + seq![piece_before + x[0]] + x.drop_first() =~= strings_view(parts@)
                    + seq![s@.subrange(i + k, i + k) + y[0]] + y.drop_first());
            }
            i = i + k;
            start = i;
        } else {
            proof {
                let r = split_seq(s@.skip(i + 1), sep@);
                assert(s@.skip(i as int).drop_first() =~= s@.skip(i + 1));
                lemma_split_nonempty(s@.skip(i + 1), sep@);
                assert(s@.skip(i as int)[0] == s@[i as int]);
                assert(x =~= r.update(0, seq![s@[i as int]] + r[0]));
                assert(x.drop_first() =~= r.drop_first());
                assert(piece_before + (seq![s@[i as int]] + r[0]) =~= s@.subrange(start as int, i + 1) + r[0]);
            }
            i = i + 1;
        }
    }
    let ghost before_last = strings_view(parts@);
    let last = s.substring_char(start, n).to_owned();
    parts.push(last);
    proof {
        assert(s@.skip(n as int) =~= Seq::<char>::empty());
        let x = split_seq(s@.skip(n as int), sep@);
        assert(x =~= seq![Seq::<char>::empty()]);
        assert(s@.subrange(start as int, n as int) + x[0] =~= s@.subrange(start as int, n as int));
        assert(strings_view(parts@) =~= before_last.push(s@.subrange(start as int, n as int)));
        assert(x.drop_first() =~= Seq::<Seq<char>>::empty());
    }
    parts
}

/// Joins the strings with `sep` between each two neighbours.
pub fn join_with(parts: &Vec<String>, sep: &str) -> (joined: String)
    ensures
        joined@ == join_seq(strings_view(parts@), sep@),
{
    if parts.len() == 0 {
        return String::new();
    }
    let mut joined = parts[0].clone();
    let mut i: usize = 1;
    proof {
        assert(strings_view(parts@).take(1) =~= seq![parts@[0]@]);
    }
    while i < parts.len()
        invariant
            1 <= i <= parts.len(),
            joined@ == join_seq(strings_view(parts@).take(i as int), sep@),
        decreases parts.len() - i,
    {
        joined.append(sep);
        joined.append(parts[i].as_str());
        proof {
            let v = strings_view(parts@);
            assert(v.take(i + 1).drop_last() =~= v.take(i as int));
            assert(v.take(i + 1).last() == parts@[i as int]@);
        }
        i = i + 1;
    }
    proof {
        assert(strings_view(parts@).take(parts.len() as int) =~= strings_view(parts@));
    }
    joined
}

} // verus!
