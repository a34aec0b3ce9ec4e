//! Generic substring-exclusion filter: keeps the strings that contain none of
//! a caller-supplied list of forbidden substrings, in their original order.

use vstd::prelude::*;
use crate::text::{
    chars_of, passes_all, passes_exclusions, string_views, subsequence_of, to_char_vecs,
};

verus! {

/// The subsequence of `strings` whose members contain none of the
/// `exclusions` as a substring, in the original order.
pub open spec fn filter_excl(strings: Seq<Seq<char>>, exclusions: Seq<Seq<char>>) -> Seq<Seq<char>>
    decreases strings.len(),
{
    if strings.len() == 0 {
        seq![]
    } else if passes_exclusions(strings[0], exclusions) {
        seq![strings[0]] + filter_excl(strings.skip(1), exclusions)
    } else {
        filter_excl(strings.skip(1), exclusions)
    }
}

/// One step of `filter_excl` on a sequence with a known first element.
proof fn lemma_filter_excl_unfold(x: Seq<char>, rest: Seq<Seq<char>>, exclusions: Seq<Seq<char>>)
    ensures
        passes_exclusions(x, exclusions) ==> filter_excl(seq![x] + rest, exclusions) == seq![x]
            + filter_excl(rest, exclusions),
        !passes_exclusions(x, exclusions) ==> filter_excl(seq![x] + rest, exclusions)
            == filter_excl(rest, exclusions),
{
    assert((seq![x] + rest).skip(1) =~= rest);
    assert((seq![x] + rest)[0] == x);
}

/// Law: exclusion filtering is idempotent. Filtering an already-filtered
/// sequence with the same exclusions gives the same sequence back.
pub proof fn lemma_filter_by_exclusions_idempotent(
    strings: Seq<Seq<char>>,
    exclusions: Seq<Seq<char>>,
)
    ensures
        filter_excl(filter_excl(strings, exclusions), exclusions) == filter_excl(
            strings,
            exclusions,
        ),
    decreases strings.len(),
{
    if strings.len() == 0 {
    } else {
        let rest = strings.skip(1);
        lemma_filter_by_exclusions_idempotent(rest, exclusions);
        if passes_exclusions(strings[0], exclusions) {
            lemma_filter_excl_unfold(strings[0], filter_excl(rest, exclusions), exclusions);
        }
    }
}

/// Law: exclusion filtering preserves the input order and never introduces
/// an element that the input did not hold: the result is a subsequence of
/// the input, and each of its members occurs in the input.
pub proof fn lemma_filter_by_exclusions_preserves_order(
    strings: Seq<Seq<char>>,
    exclusions: Seq<Seq<char>>,
)
    ensures
        subsequence_of(filter_excl(strings, exclusions), strings),
        forall|i: int|
            0 <= i < filter_excl(strings, exclusions).len() ==> strings.contains(
                #[trigger] filter_excl(strings, exclusions)[i],
            ),
    decreases strings.len(),
{
    let f = filter_excl(strings, exclusions);
    if strings.len() == 0 {
    } else {
        let rest = strings.skip(1);
        lemma_filter_by_exclusions_preserves_order(rest, exclusions);
        let fr = filter_excl(rest, exclusions);
        if passes_exclusions(strings[0], exclusions) {
            assert(f.skip(1) =~= fr);
        }
        assert forall|i: int| 0 <= i < f.len() implies strings.contains(#[trigger] f[i]) by {
            if passes_exclusions(strings[0], exclusions) && i == 0 {
                assert(strings[0] == f[i]);
            } else {
                let fi = if passes_exclusions(strings[0], exclusions) {
                    fr[i - 1]
                } else {
                    fr[i]
                };
                assert(f[i] == fi);
                assert(rest.contains(fi));
                let j = choose|j: int| 0 <= j < rest.len() && rest[j] == fi;
                assert(strings[j + 1] == f[i]);
            }
        }
    }
}

/// Returns the strings that contain none of the exclusion substrings,
/// keeping their original order. Total: no input fails.
pub fn filter_by_exclusions(strings: Vec<String>, exclusions: Vec<String>) -> (r: Vec<String>)
    ensures
        string_views(r@) == filter_excl(string_views(strings@), string_views(exclusions@)),
{
    let exclusion_chars = to_char_vecs(&exclusions);
    let mut r: Vec<String> = Vec::new();
    let ghost all = string_views(strings@);
    let ghost ex = string_views(exclusions@);
    let mut i: usize = 0;
    proof {
        assert(all.skip(0) =~= all);
        assert(string_views(r@) + filter_excl(all, ex) =~= filter_excl(all, ex));
    }
    while i < strings.len()
        invariant
            i <= strings@.len(),
            all == string_views(strings@),
            ex == string_views(exclusions@),
            crate::text::views(exclusion_chars@) == ex,
            filter_excl(all, ex) == string_views(r@) + filter_excl(all.skip(i as int), ex),
        decreases strings@.len() - i,
    {
        let cs = chars_of(strings[i].as_str());
        let ghost prev = string_views(r@);
        proof {
            assert(all.skip(i as int) =~= seq![all[i as int]] + all.skip(i + 1));
            lemma_filter_excl_unfold(all[i as int], all.skip(i + 1), ex);
        }
        if passes_all(&cs, &exclusion_chars) {
            r.push(strings[i].clone());
            proof {
                assert(string_views(r@) =~= prev + seq![all[i as int]]);
                assert(prev + (seq![all[i as int]] + filter_excl(all.skip(i + 1), ex)) =~= (prev
                    + seq![all[i as int]]) + filter_excl(all.skip(i + 1), ex));
            }
        }
        i += 1;
    }
    proof {
        assert(all.skip(strings@.len() as int) =~= Seq::<Seq<char>>::empty());
        assert(string_views(r@) + filter_excl(all.skip(strings@.len() as int), ex)
            =~= string_views(r@));
    }
    r
}

} // verus!
