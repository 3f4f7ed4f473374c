//! Recognition of video URLs, as plain text matching on the characters of a
//! submitted string.

use vstd::prelude::*;

verus! {

/// `pat` lies in `s`, starting at index `i`.
pub open spec fn occurs_at(s: Seq<char>, pat: Seq<char>, i: int) -> bool {
    &&& 0 <= i
    &&& i + pat.len() <= s.len()
    &&& s.subrange(i, i + pat.len()) == pat
}

/// `i` is where `pat` occurs in `s` for the first time.
pub open spec fn is_first_occurrence(s: Seq<char>, pat: Seq<char>, i: int) -> bool {
    &&& occurs_at(s, pat, i)
    &&& forall|j: int| 0 <= j < i ==> !occurs_at(s, pat, j)
}

/// The index of the first occurrence of `pat` in `s`, if there is one.
pub open spec fn first_index(s: Seq<char>, pat: Seq<char>) -> Option<int> {
    if exists|i: int| is_first_occurrence(s, pat, i) {
        Some(choose|i: int| is_first_occurrence(s, pat, i))
    } else {
        None
    }
}

/// What stands before the first occurrence of `pat`; all of `s` where `pat`
/// does not occur.
pub open spec fn before_first(s: Seq<char>, pat: Seq<char>) -> Seq<char> {
    match first_index(s, pat) {
        Some(i) => s.take(i),
        None => s,
    }
}

/// What follows the first occurrence of `pat`; all of `s` where `pat` does
/// not occur.
pub open spec fn after_first(s: Seq<char>, pat: Seq<char>) -> Seq<char> {
    match first_index(s, pat) {
        Some(i) => s.skip(i + pat.len()),
        None => s,
    }
}

/// `s` begins with `pat`.
pub open spec fn starts_with(s: Seq<char>, pat: Seq<char>) -> bool {
    occurs_at(s, pat, 0)
}

/// The part of a URL that names the host and the path: the scheme, if any,
/// is dropped up to and including `://`, then everything up to and including
/// the first `www.`.
pub open spec fn host_and_path(url: Seq<char>) -> Seq<char> {
    after_first(after_first(url, "://"@), "www."@)
}

/// A URL is that of a YouTube video when, after scheme and `www.`, it has a
/// host and a first path segment, and either the host is `youtube.com` and
/// the segment begins with `watch?v=`, or the host is `youtu.be`.
pub open spec fn is_youtube_video_url(url: Seq<char>) -> bool {
    let rest = host_and_path(url);
    let host = before_first(rest, "/"@);
    let segment = before_first(after_first(rest, "/"@), "/"@);
    &&& first_index(rest, "/"@) is Some
    &&& (host == "youtube.com"@ && starts_with(segment, "watch?v="@)) || host == "youtu.be"@
}

/// No pattern first occurs at two places.
pub proof fn lemma_first_occurrence_unique(s: Seq<char>, pat: Seq<char>, i: int, j: int)
    requires
        is_first_occurrence(s, pat, i),
        is_first_occurrence(s, pat, j),
    ensures
        i == j,
{
}

/// What `first_index` returns is a first occurrence, and where it returns
/// nothing the pattern occurs nowhere.
pub proof fn lemma_first_index(s: Seq<char>, pat: Seq<char>)
    ensures
        match first_index(s, pat) {
            Some(i) => is_first_occurrence(s, pat, i),
            None => forall|j: int| !occurs_at(s, pat, j),
        },
{
    if first_index(s, pat) is None {
        assert forall|j: int| !occurs_at(s, pat, j) by {
            if occurs_at(s, pat, j) {
                lemma_least_occurrence(s, pat, j);
            }
        }
    }
}

/// Where a pattern occurs at all, it occurs somewhere for the first time.
proof fn lemma_least_occurrence(s: Seq<char>, pat: Seq<char>, j: int)
    requires
        occurs_at(s, pat, j),
    ensures
        exists|i: int| is_first_occurrence(s, pat, i),
    decreases j,
{
    if exists|k: int| 0 <= k < j && occurs_at(s, pat, k) {
        let k = choose|k: int| 0 <= k < j && occurs_at(s, pat, k);
        lemma_least_occurrence(s, pat, k);
    } else {
        assert(is_first_occurrence(s, pat, j));
    }
}

/// The characters of a string, in order.
pub fn chars_of(s: &str) -> (v: Vec<char>)
    ensures
        v@ == s@,
{
    let mut v: Vec<char> = Vec::new();
    for c in it: s.chars()
        invariant
            v@ == it.seq().take(it.index() as int),
            it.seq() == s@,
    {
        v.push(c);
    }
    v
}

/// Whether `pat` lies in `s` at index `i`.
pub fn matches_at(s: &Vec<char>, pat: &Vec<char>, i: usize) -> (b: bool)
    ensures
        b == occurs_at(s@, pat@, i as int),
{
    if pat.len() > s.len() || i > s.len() - pat.len() {
        return false;
    }
    let mut k: usize = 0;
    while k < pat.len()
        invariant
            k <= pat.len(),
            i + pat.len() <= s.len(),
            forall|j: int| 0 <= j < k ==> s@[i + j] == pat@[j],
        decreases pat.len() - k,
    {
        if s[i + k] != pat[k] {
            proof {
                assert(s@.subrange(i as int, i + pat.len())[k as int] == s@[i + k]);
            }
            return false;
        }
        k += 1;
    }
    proof {
        assert(s@.subrange(i as int, i + pat.len()) =~= pat@);
    }
    true
}

/// The index at which `pat` first occurs in `s`.
pub fn find(s: &Vec<char>, pat: &Vec<char>) -> (r: Option<usize>)
    ensures
        match r {
            Some(i) => first_index(s@, pat@) == Some(i as int),
            None => first_index(s@, pat@) is None,
        },
{
    let mut i: usize = 0;
    while i <= s.len()
        invariant
            i <= s.len() + 1,
            forall|j: int| 0 <= j < i ==> !occurs_at(s@, pat@, j),
        decreases s.len() + 1 - i,
    {
        if matches_at(s, pat, i) {
            proof {
                assert(is_first_occurrence(s@, pat@, i as int));
                let c = choose|c: int| is_first_occurrence(s@, pat@, c);
                lemma_first_occurrence_unique(s@, pat@, i as int, c);
            }
            return Some(i);
        }
        if i == s.len() {
            return None;
        }
        i += 1;
    }
    None
}

/// The elements of `s` from index `from` up to, not including, index `to`.
pub fn slice(s: &Vec<char>, from: usize, to: usize) -> (r: Vec<char>)
    requires
        from <= to <= s.len(),
    ensures
        r@ == s@.subrange(from as int, to as int),
{
    let mut r: Vec<char> = Vec::new();
    let mut k: usize = from;
    while k < to
        invariant
            from <= k <= to <= s.len(),
            r@ == s@.subrange(from as int, k as int),
        decreases to - k,
    {
        r.push(s[k]);
        proof {
            assert(r@ =~= s@.subrange(from as int, k + 1));
        }
        k += 1;
    }
    r
}

/// The part of `s` before the first occurrence of `pat`.
pub fn split_before(s: &Vec<char>, pat: &Vec<char>) -> (r: Vec<char>)
    ensures
        r@ == before_first(s@, pat@),
{
    match find(s, pat) {
        Some(i) => slice(s, 0, i),
        None => {
            let r = slice(s, 0, s.len());
            proof {
                assert(r@ =~= s@);
            }
            r
        },
    }
}

/// The part of `s` after the first occurrence of `pat`.
pub fn split_after(s: &Vec<char>, pat: &Vec<char>) -> (r: Vec<char>)
    ensures
        r@ == after_first(s@, pat@),
{
    match find(s, pat) {
        Some(i) => {
            let end = s.len();
            proof {
                lemma_first_index(s@, pat@);
            }
            slice(s, i + pat.len(), end)
        },
        None => {
            let r = slice(s, 0, s.len());
            proof {
                assert(r@ =~= s@);
            }
            r
        },
    }
}

/// Whether two sequences of characters are the same.
pub fn same_chars(a: &Vec<char>, b: &Vec<char>) -> (r: bool)
    ensures
        r == (a@ == b@),
{
    if a.len() != b.len() {
        return false;
    }
    let r = matches_at(a, b, 0);
    proof {
        assert(a@.subrange(0, a@.len() as int) =~= a@);
    }
    r
}

/// Whether `url` is the URL of a YouTube video.
pub fn is_video_url(url: &str) -> (b: bool)
    ensures
        b == is_youtube_video_url(url@),
{
    let chars = chars_of(url);
    let rest = split_after(&chars, &chars_of("://"));
    let rest = split_after(&rest, &chars_of("www."));
    let slash = chars_of("/");
    if find(&rest, &slash).is_none() {
        return false;
    }
    let host = split_before(&rest, &slash);
    let tail = split_after(&rest, &slash);
    let segment = split_before(&tail, &slash);
    (same_chars(&host, &chars_of("youtube.com")) && matches_at(
        &segment,
        &chars_of("watch?v="),
        0,
    )) || same_chars(&host, &chars_of("youtu.be"))
}

} // verus!
