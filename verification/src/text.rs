// Text matching for guesses: a guess is right when it mentions the quote's
// author or when the lower-cased message contains the author's display name
// as a substring. Substring search is the library's own; lower-casing is
// delegated to the standard library behind a named result.

use vstd::prelude::*;

verus! {

/// `pat` occurs in `text` starting at position `i`.
pub open spec fn is_match_at(text: Seq<char>, pat: Seq<char>, i: int) -> bool {
    &&& 0 <= i
    &&& i + pat.len() <= text.len()
    &&& text.subrange(i, i + pat.len() as int) == pat
}

/// `pat` occurs somewhere in `text`; the empty pattern occurs everywhere.
pub open spec fn contains_seq(text: Seq<char>, pat: Seq<char>) -> bool {
    exists|i: int| is_match_at(text, pat, i)
}

/// Checks whether `pat` starts at position `i` of `text`.
#[verifier::loop_isolation(false)]
fn matches_at(text: &str, pat: &str, i: usize) -> (r: bool)
    requires
        i + pat@.len() <= text@.len(),
    ensures
        r == is_match_at(text@, pat@, i as int),
{
    let tlen = text.unicode_len();
    let plen = pat.unicode_len();
    let mut j: usize = 0;
    while j < plen
        invariant
            j <= plen,
            forall|k: int| 0 <= k < j ==> text@[i + k] == pat@[k],
        decreases plen - j,
    {
        if text.get_char(i + j) != pat.get_char(j) {
            proof {
                assert(text@.subrange(i as int, i + pat@.len() as int)[j as int] != pat@[j as int]);
            }
            return false;
        }
        j += 1;
    }
    proof {
        assert(text@.subrange(i as int, i + pat@.len() as int) =~= pat@);
    }
    true
}

/// Substring search: whether `pat` occurs anywhere in `text`.
#[verifier::loop_isolation(false)]
pub fn contains_substring(text: &str, pat: &str) -> (r: bool)
    ensures
        r == contains_seq(text@, pat@),
{
    let tlen = text.unicode_len();
    let plen = pat.unicode_len();
    if plen > tlen {
        proof {
            assert(forall|i: int| !is_match_at(text@, pat@, i));
        }
        return false;
    }
    if plen == 0 {
        proof {
            assert(text@.subrange(0, 0) =~= pat@);
            assert(is_match_at(text@, pat@, 0));
        }
        return true;
    }
    let mut i: usize = 0;
    while i <= tlen - plen
        invariant
            0 < plen <= tlen,
            i <= tlen - plen + 1,
            forall|k: int| 0 <= k < i ==> !is_match_at(text@, pat@, k),
        decreases tlen - plen - i + 1,
    {
        if matches_at(text, pat, i) {
            return true;
        }
        i += 1;
    }
    proof {
        assert(forall|k: int| is_match_at(text@, pat@, k) ==> k <= tlen - plen);
    }
    false
}

/// The lower-case form of a character sequence, as the standard library
/// computes it; it depends on the characters alone.
pub uninterp spec fn lower_of(s: Seq<char>) -> Seq<char>;

/// Relies on str::to_lowercase: the result is a function of the characters
/// alone, and an empty string stays empty.
#[verifier::external_body]
fn lowercase(s: &str) -> (r: String)
    ensures
        r@ == lower_of(s@),
        s@.len() == 0 ==> r@.len() == 0,
{
    s.to_lowercase()
}

/// A guess for `author_id` with display name `author_name` is correct: the
/// message mentions the author, or the lower-cased message text contains the
/// lower-cased display name.
pub open spec fn spec_guess_correct(
    author_id: i64,
    author_name: Seq<char>,
    mentioned_ids: Seq<i64>,
    content: Seq<char>,
) -> bool {
    ||| mentioned_ids.contains(author_id)
    ||| contains_seq(lower_of(content), lower_of(author_name))
}

/// Judges one guess: a mention of the author, or a case-insensitive
/// occurrence of the author's display name in the message, is correct.
#[verifier::loop_isolation(false)]
pub fn judge_guess(
    author_id: i64,
    author_name: &str,
    mentioned_ids: &Vec<i64>,
    content: &str,
) -> (r: bool)
    ensures
        r == spec_guess_correct(author_id, author_name@, mentioned_ids@, content@),
{
    let n = mentioned_ids.len();
    let mut i: usize = 0;
    while i < n
        invariant
            i <= n,
            forall|k: int| 0 <= k < i ==> mentioned_ids@[k] != author_id,
        decreases n - i,
    {
        if mentioned_ids[i] == author_id {
            return true;
        }
        i += 1;
    }
    let content_lower = lowercase(content);
    let name_lower = lowercase(author_name);
    contains_substring(content_lower.as_str(), name_lower.as_str())
}

} // verus!
