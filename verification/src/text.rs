//! Character-sequence primitives: substring search, pattern positions, and
//! conversions between `String`/`&str` and `Vec<char>`.
//!
//! Everything here works on the character level: the view of a string is its
//! `Seq<char>`, and the executable code carries text as `Vec<char>` so that
//! positions can be addressed directly.

use vstd::prelude::*;

verus! {

/// The view of every string in a sequence of strings.
pub open spec fn string_views(strings: Seq<String>) -> Seq<Seq<char>> {
    strings.map_values(|s: String| s@)
}

/// The view of every character vector in a sequence of them.
pub open spec fn views(vecs: Seq<Vec<char>>) -> Seq<Seq<char>> {
    vecs.map_values(|v: Vec<char>| v@)
}

/// True when `pat` occurs in `s` starting exactly at position `i`.
pub open spec fn matches_at(s: Seq<char>, pat: Seq<char>, i: int) -> bool {
    &&& 0 <= i
    &&& i + pat.len() <= s.len()
    &&& s.subrange(i, i + pat.len()) == pat
}

/// True when `pat` occurs somewhere in `s` as a contiguous run.
pub open spec fn contains_seq(s: Seq<char>, pat: Seq<char>) -> bool {
    exists|i: int| matches_at(s, pat, i)
}

/// Position of the first occurrence of `pat` in `s` at or after `from`.
pub open spec fn find_pat(s: Seq<char>, pat: Seq<char>, from: nat) -> Option<nat>
    decreases s.len() + 1 - from,
{
    if from + pat.len() > s.len() {
        None
    } else if matches_at(s, pat, from as int) {
        Some(from)
    } else {
        find_pat(s, pat, (from + 1) as nat)
    }
}

/// What a `find_pat` result means: a found position is the first match at or
/// after `from`, and a miss rules every later position out.
pub proof fn lemma_find_pat_characterizes(s: Seq<char>, pat: Seq<char>, from: nat)
    ensures
        match find_pat(s, pat, from) {
            Some(i) => {
                &&& from <= i
                &&& i + pat.len() <= s.len()
                &&& matches_at(s, pat, i as int)
                &&& forall|k: int| from <= k < i ==> !matches_at(s, pat, k)
            },
            None => forall|k: int| from <= k ==> !matches_at(s, pat, k),
        },
    decreases s.len() + 1 - from,
{
    if from + pat.len() > s.len() {
        assert forall|k: int| from <= k implies !matches_at(s, pat, k) by {
            assert(k + pat.len() >= from + pat.len());
        }
    } else if matches_at(s, pat, from as int) {
    } else {
        lemma_find_pat_characterizes(s, pat, (from + 1) as nat);
    }
}

/// Compares `pat` against the run of `s` that starts at `i`.
pub fn match_at(s: &Vec<char>, pat: &Vec<char>, i: usize) -> (r: bool)
    requires
        i + pat@.len() <= s@.len(),
    ensures
        r == matches_at(s@, pat@, i as int),
{
    let n = s.len();
    let mut j: usize = 0;
    while j < pat.len()
        invariant
            n == s@.len(),
            i + pat@.len() <= s@.len(),
            j <= pat@.len(),
            forall|k: int| 0 <= k < j ==> s@[i + k] == pat@[k],
        decreases pat@.len() - j,
    {
        if s[i + j] != pat[j] {
            proof {
                if matches_at(s@, pat@, i as int) {
                    assert(s@.subrange(i as int, i + pat@.len())[j as int] == s@[i + j]);
                }
            }
            return false;
        }
        j += 1;
    }
    proof {
        assert(s@.subrange(i as int, i + pat@.len()) =~= pat@);
    }
    true
}

/// Finds the first occurrence of `pat` in `s` at or after `from`.
pub fn find_pattern(s: &Vec<char>, pat: &Vec<char>, from: usize) -> (r: Option<usize>)
    requires
        pat@.len() > 0,
    ensures
        match r {
            Some(i) => find_pat(s@, pat@, from as nat) == Some(i as nat),
            None => find_pat(s@, pat@, from as nat) is None,
        },
{
    let mut i = from;
    while pat.len() <= s.len() && i <= s.len() - pat.len()
        invariant
            pat@.len() > 0,
            from <= i,
            find_pat(s@, pat@, from as nat) == find_pat(s@, pat@, i as nat),
        decreases s@.len() + 1 - i,
    {
        if match_at(s, pat, i) {
            return Some(i);
        }
        i += 1;
    }
    proof {
        assert(i + pat@.len() > s@.len());
    }
    None
}

/// Decides whether `pat` occurs in `s` as a contiguous run.
pub fn contains_pattern(s: &Vec<char>, pat: &Vec<char>) -> (r: bool)
    ensures
        r == contains_seq(s@, pat@),
{
    if pat.len() == 0 {
        proof {
            assert(s@.subrange(0, 0) =~= pat@);
            assert(matches_at(s@, pat@, 0));
        }
        return true;
    }
    proof {
        lemma_find_pat_characterizes(s@, pat@, 0);
    }
    match find_pattern(s, pat, 0) {
        Some(_) => true,
        None => false,
    }
}

/// The characters of a string, in order, as a vector.
pub fn chars_of(s: &str) -> (r: Vec<char>)
    ensures
        r@ == s@,
{
    let len = s.unicode_len();
    let mut r: Vec<char> = Vec::new();
    let mut i: usize = 0;
    while i < len
        invariant
            len == s@.len(),
            i <= len,
            r@ =~= s@.take(i as int),
        decreases len - i,
    {
        let c = s.get_char(i);
        r.push(c);
        i += 1;
        proof {
            assert(r@ =~= s@.take(i as int));
        }
    }
    proof {
        assert(s@.take(len as int) =~= s@);
    }
    r
}

/// Relies on `String::push`: appends the given character to the end of the
/// string.
#[verifier::external_body]
fn push_char(s: &mut String, c: char)
    ensures
        final(s)@ == old(s)@.push(c),
{
    s.push(c);
}

/// A string holding exactly the given characters, in order.
pub fn string_of(cs: &Vec<char>) -> (r: String)
    ensures
        r@ == cs@,
{
    let mut r = String::new();
    let mut i: usize = 0;
    while i < cs.len()
        invariant
            i <= cs@.len(),
            r@ =~= cs@.take(i as int),
        decreases cs@.len() - i,
    {
        push_char(&mut r, cs[i]);
        i += 1;
        proof {
            assert(r@ =~= cs@.take(i as int));
        }
    }
    proof {
        assert(cs@.take(cs@.len() as int) =~= cs@);
    }
    r
}

/// Appends every character of `src` to `dst`, keeping order.
pub fn extend_chars(dst: &mut Vec<char>, src: &Vec<char>)
    ensures
        final(dst)@ == old(dst)@ + src@,
{
    let mut i: usize = 0;
    while i < src.len()
        invariant
            i <= src@.len(),
            dst@ =~= old(dst)@ + src@.take(i as int),
        decreases src@.len() - i,
    {
        dst.push(src[i]);
        i += 1;
        proof {
            assert(dst@ =~= old(dst)@ + src@.take(i as int));
        }
    }
    proof {
        assert(old(dst)@ + src@.take(src@.len() as int) =~= old(dst)@ + src@);
    }
}

/// The characters of `s` between positions `a` (inclusive) and `b`
/// (exclusive), as a fresh vector.
pub fn subvec(s: &Vec<char>, a: usize, b: usize) -> (r: Vec<char>)
    requires
        a <= b <= s@.len(),
    ensures
        r@ == s@.subrange(a as int, b as int),
{
    let mut r: Vec<char> = Vec::new();
    let mut i = a;
    while i < b
        invariant
            a <= i <= b <= s@.len(),
            r@ =~= s@.subrange(a as int, i as int),
        decreases b - i,
    {
        r.push(s[i]);
        i += 1;
        proof {
            assert(r@ =~= s@.subrange(a as int, i as int));
        }
    }
    r
}

/// The views of every string in a vector, as character vectors.
pub fn to_char_vecs(strings: &Vec<String>) -> (r: Vec<Vec<char>>)
    ensures
        views(r@) == string_views(strings@),
{
    let mut r: Vec<Vec<char>> = Vec::new();
    let mut i: usize = 0;
    while i < strings.len()
        invariant
            i <= strings@.len(),
            r@.len() == i,
            forall|k: int| 0 <= k < i ==> r@[k]@ == strings@[k]@,
        decreases strings@.len() - i,
    {
        let cs = chars_of(strings[i].as_str());
        r.push(cs);
        i += 1;
    }
    proof {
        assert(views(r@) =~= string_views(strings@));
    }
    r
}

/// True when `s` contains none of the exclusion substrings: the string
/// survives exclusion filtering. An empty exclusion list lets everything
/// through.
pub open spec fn passes_exclusions(s: Seq<char>, exclusions: Seq<Seq<char>>) -> bool {
    forall|k: int| 0 <= k < exclusions.len() ==> !contains_seq(s, exclusions[k])
}

/// Decides whether `s` survives the given exclusion substrings.
pub fn passes_all(s: &Vec<char>, exclusions: &Vec<Vec<char>>) -> (r: bool)
    ensures
        r == passes_exclusions(s@, views(exclusions@)),
{
    let mut k: usize = 0;
    while k < exclusions.len()
        invariant
            k <= exclusions@.len(),
            forall|j: int| 0 <= j < k ==> !contains_seq(s@, #[trigger] views(exclusions@)[j]),
        decreases exclusions@.len() - k,
    {
        if contains_pattern(s, &exclusions[k]) {
            proof {
                assert(contains_seq(s@, views(exclusions@)[k as int]));
            }
            return false;
        }
        k += 1;
    }
    true
}

/// `a` appears inside `b` in order, possibly with other elements between.
pub open spec fn subsequence_of<A>(a: Seq<A>, b: Seq<A>) -> bool
    decreases b.len(),
{
    if a.len() == 0 {
        true
    } else if b.len() == 0 {
        false
    } else {
        ||| (a[0] == b[0] && subsequence_of(a.skip(1), b.skip(1)))
        ||| subsequence_of(a, b.skip(1))
    }
}

} // verus!
