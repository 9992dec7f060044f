//! Character-level text operations the builder needs: joining name chunks,
//! replacing a separator, and cutting a module name out of a file path.

use vstd::prelude::*;

verus! {

/// The character that separates the components of a file path.
pub const PATH_SEPARATOR: char = '/';

/// The character that separates a file name from its extension.
pub const EXTENSION_SEPARATOR: char = '.';

/// `chunks` joined into one sequence with `sep` between neighbours.
pub open spec fn spec_join(chunks: Seq<Seq<char>>, sep: Seq<char>) -> Seq<char>
    decreases chunks.len(),
{
    if chunks.len() == 0 {
        Seq::empty()
    } else if chunks.len() == 1 {
        chunks[0]
    } else {
        chunks[0] + sep + spec_join(chunks.drop_first(), sep)
    }
}

/// Joining one more chunk appends a separator and the chunk, except to an
/// empty join.
pub proof fn lemma_join_push(chunks: Seq<Seq<char>>, chunk: Seq<char>, sep: Seq<char>)
    ensures
        chunks.len() == 0 ==> spec_join(chunks.push(chunk), sep) == chunk,
        chunks.len() > 0 ==> spec_join(chunks.push(chunk), sep) == spec_join(chunks, sep) + sep
            + chunk,
    decreases chunks.len(),
{
    if chunks.len() == 0 {
        assert(spec_join(chunks.push(chunk), sep) == chunk);
    } else if chunks.len() == 1 {
        assert(chunks.push(chunk).drop_first() =~= seq![chunk]);
        assert(spec_join(seq![chunk], sep) == chunk);
        assert(spec_join(chunks.push(chunk), sep) == chunks[0] + sep + chunk);
    } else {
        lemma_join_push(chunks.drop_first(), chunk, sep);
        assert(chunks.push(chunk).drop_first() =~= chunks.drop_first().push(chunk));
        assert(spec_join(chunks, sep) + sep + chunk =~= chunks[0] + sep + (spec_join(
            chunks.drop_first(),
            sep,
        ) + sep + chunk));
    }
}

/// `s` with every non-overlapping occurrence of `from`, found left to right,
/// replaced by `to`. With an empty `from`, `to` is put before every character
/// and after the last one.
pub open spec fn spec_replace(s: Seq<char>, from: Seq<char>, to: Seq<char>) -> Seq<char>
    decreases s.len(),
{
    if from.len() == 0 {
        if s.len() == 0 {
            to
        } else {
            to + seq![s[0]] + spec_replace(s.drop_first(), from, to)
        }
    } else if s.len() < from.len() {
        s
    } else if s.subrange(0, from.len() as int) == from {
        to + spec_replace(s.skip(from.len() as int), from, to)
    } else {
        seq![s[0]] + spec_replace(s.drop_first(), from, to)
    }
}

/// The part of `s` after the last occurrence of `c`, or all of `s` when `c`
/// does not occur.
pub open spec fn spec_after_last(s: Seq<char>, c: char) -> Seq<char>
    decreases s.len(),
{
    if s.len() == 0 {
        Seq::empty()
    } else if s.last() == c {
        Seq::empty()
    } else {
        spec_after_last(s.drop_last(), c).push(s.last())
    }
}

/// The part of `s` before the first occurrence of `c`, or all of `s` when `c`
/// does not occur.
pub open spec fn spec_before_first(s: Seq<char>, c: char) -> Seq<char>
    decreases s.len(),
{
    if s.len() == 0 {
        Seq::empty()
    } else if s[0] == c {
        Seq::empty()
    } else {
        seq![s[0]] + spec_before_first(s.drop_first(), c)
    }
}

/// A directory and a relative path joined with the path separator; an empty
/// directory contributes nothing, and a directory already ending in the
/// separator gets no second one.
pub open spec fn spec_path_join(dir: Seq<char>, rel: Seq<char>) -> Seq<char> {
    if dir.len() == 0 {
        rel
    } else if dir.last() == PATH_SEPARATOR {
        dir + rel
    } else {
        dir + seq![PATH_SEPARATOR] + rel
    }
}

/// When no character from position `k` on is `c`, and `c` stands just before
/// `k` or `k` is the start, the part after the last `c` is the tail from `k`.
proof fn lemma_after_last_scan(s: Seq<char>, c: char, k: int)
    requires
        0 <= k <= s.len(),
        forall|j: int| k <= j < s.len() ==> s[j] != c,
        k == 0 || s[k - 1] == c,
    ensures
        spec_after_last(s, c) == s.subrange(k, s.len() as int),
    decreases s.len(),
{
    if k == s.len() {
        if s.len() > 0 {
            assert(s.last() == c);
        }
        assert(s.subrange(k, s.len() as int) =~= Seq::<char>::empty());
    } else {
        assert(s.last() != c);
        lemma_after_last_scan(s.drop_last(), c, k);
        assert(s.drop_last().subrange(k, s.len() - 1).push(s.last()) =~= s.subrange(
            k,
            s.len() as int,
        ));
    }
}

/// When no character before position `e` is `c`, and `c` stands at `e` or `e`
/// is the end, the part before the first `c` is the head up to `e`.
proof fn lemma_before_first_scan(s: Seq<char>, c: char, e: int)
    requires
        0 <= e <= s.len(),
        forall|j: int| 0 <= j < e ==> s[j] != c,
        e == s.len() || s[e] == c,
    ensures
        spec_before_first(s, c) == s.subrange(0, e),
    decreases s.len(),
{
    if e == 0 {
        assert(s.subrange(0, 0) =~= Seq::<char>::empty());
    } else {
        assert(s[0] != c);
        lemma_before_first_scan(s.drop_first(), c, e - 1);
        assert(forall|j: int| 0 <= j < e - 1 ==> s.drop_first()[j] != c);
        assert(seq![s[0]] + s.drop_first().subrange(0, e - 1) =~= s.subrange(0, e));
    }
}

/// Whether `from` occurs in `s` at position `i`.
fn matches_at(s: &str, n: usize, i: usize, from: &str, k: usize) -> (r: bool)
    requires
        n == s@.len(),
        k == from@.len(),
        i + k <= n,
    ensures
        r == (s@.subrange(i as int, i + k) == from@),
{
    let mut j: usize = 0;
    while j < k
        invariant
            j <= k,
            i + k <= n,
            n == s@.len(),
            k == from@.len(),
            forall|m: int| 0 <= m < j ==> s@[i + m] == from@[m],
        decreases k - j,
    {
        if s.get_char(i + j) != from.get_char(j) {
            proof {
                assert(s@.subrange(i as int, i + k)[j as int] != from@[j as int]);
            }
            return false;
        }
        j = j + 1;
    }
    proof {
        assert(s@.subrange(i as int, i + k) =~= from@);
    }
    true
}

/// `chunks` joined into one string with `sep` between neighbours.
pub fn join_chunks(chunks: &Vec<String>, sep: &String) -> (r: String)
    ensures
        r@ == spec_join(chunks@.map_values(|c: String| c@), sep@),
{
    let ghost views = chunks@.map_values(|c: String| c@);
    let mut out = String::new();
    let mut i: usize = 0;
    proof {
        assert(views.subrange(0, 0) =~= Seq::<Seq<char>>::empty());
    }
    while i < chunks.len()
        invariant
            i <= chunks@.len(),
            views == chunks@.map_values(|c: String| c@),
            out@ == spec_join(views.subrange(0, i as int), sep@),
        decreases chunks@.len() - i,
    {
        if i > 0 {
            out.append(sep.as_str());
        }
        out.append(chunks[i].as_str());
        proof {
            lemma_join_push(views.subrange(0, i as int), views[i as int], sep@);
            assert(views.subrange(0, i as int).push(views[i as int]) =~= views.subrange(
                0,
                i + 1,
            ));
        }
        i = i + 1;
    }
    proof {
        assert(views.subrange(0, views.len() as int) =~= views);
    }
    out
}

/// `s` with every occurrence of `from` replaced by `to`, scanning left to
/// right over non-overlapping occurrences.
pub fn replace_all(s: &str, from: &str, to: &str) -> (r: String)
    ensures
        r@ == spec_replace(s@, from@, to@),
{
    let n = s.unicode_len();
    let k = from.unicode_len();
    let mut out = String::new();
    let mut i: usize = 0;
    proof {
        assert(s@.skip(0) =~= s@);
        assert(out@ + spec_replace(s@, from@, to@) =~= spec_replace(s@, from@, to@));
    }
    if k == 0 {
        while i < n
            invariant
                i <= n,
                n == s@.len(),
                from@.len() == 0,
                out@ + spec_replace(s@.skip(i as int), from@, to@) == spec_replace(
                    s@,
                    from@,
                    to@,
                ),
            decreases n - i,
        {
            let ghost pre = out@;
            out.append(to);
            let piece = s.substring_char(i, i + 1);
            out.append(piece);
            proof {
                assert(seq![s@.skip(i as int)[0]] =~= s@.subrange(i as int, i + 1));
                assert(s@.skip(i as int).drop_first() =~= s@.skip(i + 1));
                assert(out@ + spec_replace(s@.skip(i + 1), from@, to@) =~= pre + spec_replace(
                    s@.skip(i as int),
                    from@,
                    to@,
                ));
            }
            i = i + 1;
        }
        proof {
            assert(s@.skip(n as int) =~= Seq::<char>::empty());
        }
        out.append(to);
        return out;
    }
    while i < n
        invariant
            i <= n,
            n == s@.len(),
            k == from@.len(),
            k > 0,
            out@ + spec_replace(s@.skip(i as int), from@, to@) == spec_replace(s@, from@, to@),
        decreases n - i,
    {
        let ghost pre = out@;
        if k <= n && i <= n - k && matches_at(s, n, i, from, k) {
            out.append(to);
            proof {
                assert(s@.skip(i as int).subrange(0, k as int) =~= s@.subrange(i as int, i + k));
                assert(s@.skip(i as int).skip(k as int) =~= s@.skip(i + k));
                assert(out@ + spec_replace(s@.skip(i + k), from@, to@) =~= pre + spec_replace(
                    s@.skip(i as int),
                    from@,
                    to@,
                ));
            }
            i = i + k;
        } else {
            let piece = s.substring_char(i, i + 1);
            out.append(piece);
            proof {
                if i + k <= n {
                    assert(s@.skip(i as int).subrange(0, k as int) =~= s@.subrange(
                        i as int,
                        i + k,
                    ));
                }
                assert(seq![s@.skip(i as int)[0]] =~= s@.subrange(i as int, i + 1));
                assert(s@.skip(i as int).drop_first() =~= s@.skip(i + 1));
                assert(out@ + spec_replace(s@.skip(i + 1), from@, to@) =~= pre + spec_replace(
                    s@.skip(i as int),
                    from@,
                    to@,
                ));
            }
            i = i + 1;
        }
    }
    proof {
        assert(s@.skip(n as int) =~= Seq::<char>::empty());
    }
    out
}

/// The file name a path ends in, without its directories and without what
/// follows the first extension separator in that name.
pub fn file_stem(path: &str) -> (r: String)
    ensures
        r@ == spec_before_first(spec_after_last(path@, PATH_SEPARATOR), EXTENSION_SEPARATOR),
{
    let n = path.unicode_len();
    let mut start: usize = n;
    while start > 0 && path.get_char(start - 1) != PATH_SEPARATOR
        invariant
            start <= n,
            n == path@.len(),
            forall|j: int| start <= j < n ==> path@[j] != PATH_SEPARATOR,
        decreases start,
    {
        start = start - 1;
    }
    proof {
        lemma_after_last_scan(path@, PATH_SEPARATOR, start as int);
    }
    let ghost tail = spec_after_last(path@, PATH_SEPARATOR);
    let mut end: usize = start;
    while end < n && path.get_char(end) != EXTENSION_SEPARATOR
        invariant
            start <= end <= n,
            n == path@.len(),
            tail == path@.subrange(start as int, n as int),
            forall|j: int| start <= j < end ==> path@[j] != EXTENSION_SEPARATOR,
        decreases n - end,
    {
        end = end + 1;
    }
    proof {
        lemma_before_first_scan(
            tail,
            EXTENSION_SEPARATOR,
            end - start,
        );
        assert(tail.subrange(0, end - start) =~= path@.subrange(start as int, end as int));
    }
    let r = path.substring_char(start, end);
    r.to_owned()
}

/// A directory and a relative path joined with the path separator.
pub fn path_join(dir: &String, rel: &String) -> (r: String)
    ensures
        r@ == spec_path_join(dir@, rel@),
{
    let n = dir.as_str().unicode_len();
    if n == 0 {
        return rel.clone();
    }
    let mut out = dir.clone();
    if dir.as_str().get_char(n - 1) != PATH_SEPARATOR {
        let sep = "/";
        proof {
            reveal_strlit("/");
        }
        out.append(sep);
        proof {
            assert(out@ =~= dir@ + seq![PATH_SEPARATOR]);
        }
    }
    out.append(rel.as_str());
    out
}

} // verus!
