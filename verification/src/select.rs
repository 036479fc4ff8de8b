// Quote selection: picks a random quote among those that are long enough
// and, when an allow-list is configured, whose author is on the list. The
// draw itself comes from the process-wide random number generator; the
// filtering around it is verified for every value the draw can take.

use vstd::prelude::*;

verus! {

/// An archived message that can be quoted. `posted_at` is in seconds since
/// the Unix epoch.
#[derive(Clone, Debug)]
pub struct Quote {
    pub id: i64,
    pub author_id: i64,
    pub author_name: String,
    pub text: String,
    pub posted_at: i64,
}

/// Minimum quote length for the guessing game: longer quotes are fairer.
pub const GUESS_MIN_LENGTH: usize = 20;

/// Minimum quote length for a passive roll: any non-empty content qualifies.
pub const ROLL_MIN_LENGTH: usize = 1;

/// A quote is eligible when its text has at least `min_length` characters
/// and, with a non-empty allow-list, its author is on the list.
pub open spec fn eligible(q: Quote, allow_list: Seq<i64>, min_length: int) -> bool {
    &&& q.text@.len() >= min_length
    &&& (allow_list.len() > 0 ==> allow_list.contains(q.author_id))
}

/// Number of eligible quotes in the sequence.
pub open spec fn count_eligible(quotes: Seq<Quote>, allow_list: Seq<i64>, min_length: int) -> int
    decreases quotes.len(),
{
    if quotes.len() == 0 {
        0
    } else {
        count_eligible(quotes.drop_last(), allow_list, min_length) + if eligible(
            quotes.last(),
            allow_list,
            min_length,
        ) {
            1int
        } else {
            0int
        }
    }
}

pub proof fn lemma_count_eligible_nonneg(
    quotes: Seq<Quote>,
    allow_list: Seq<i64>,
    min_length: int,
)
    ensures
        0 <= count_eligible(quotes, allow_list, min_length) <= quotes.len(),
    decreases quotes.len(),
{
    if quotes.len() > 0 {
        lemma_count_eligible_nonneg(quotes.drop_last(), allow_list, min_length);
    }
}

/// Relies on rand::random_range: a uniform draw from `0..n`, so every
/// outcome is below `n`.
#[verifier::external_body]
pub(crate) fn draw_below(n: usize) -> (r: usize)
    requires
        n > 0,
    ensures
        r < n,
{
    rand::random_range(0..n)
}

/// Checks eligibility of one quote.
#[verifier::loop_isolation(false)]
fn is_eligible(q: &Quote, allow_list: &Vec<i64>, min_length: usize) -> (r: bool)
    ensures
        r == eligible(*q, allow_list@, min_length as int),
{
    if q.text.as_str().unicode_len() < min_length {
        return false;
    }
    let n = allow_list.len();
    if n == 0 {
        return true;
    }
    let mut i: usize = 0;
    while i < n
        invariant
            i <= n,
            forall|k: int| 0 <= k < i ==> allow_list@[k] != q.author_id,
        decreases n - i,
    {
        if allow_list[i] == q.author_id {
            return true;
        }
        i += 1;
    }
    false
}

fn clone_quote(q: &Quote) -> (r: Quote)
    ensures
        r == *q,
{
    Quote {
        id: q.id,
        author_id: q.author_id,
        author_name: q.author_name.clone(),
        text: q.text.clone(),
        posted_at: q.posted_at,
    }
}

/// Picks a random eligible quote: `None` exactly when no quote is eligible.
/// With a non-empty allow-list the chosen quote's author is always on the
/// list. The draw is uniform over the eligible quotes as far as the random
/// number generator's draw over their count is.
#[verifier::loop_isolation(false)]
pub fn select_quote(quotes: &Vec<Quote>, allow_list: &Vec<i64>, min_length: usize) -> (r: Option<
    Quote,
>)
    ensures
        r is Some <==> count_eligible(quotes@, allow_list@, min_length as int) > 0,
        match r {
            Some(q) => quotes@.contains(q) && eligible(q, allow_list@, min_length as int),
            None => true,
        },
{
    let n = quotes.len();
    let mut count: usize = 0;
    let mut i: usize = 0;
    while i < n
        invariant
            i <= n,
            count <= i,
            count == count_eligible(quotes@.take(i as int), allow_list@, min_length as int),
        decreases n - i,
    {
        proof {
            assert(quotes@.take(i + 1).drop_last() =~= quotes@.take(i as int));
            assert(quotes@.take(i + 1).last() == quotes@[i as int]);
        }
        if is_eligible(&quotes[i], allow_list, min_length) {
            count += 1;
        }
        i += 1;
    }
    proof {
        assert(quotes@.take(n as int) =~= quotes@);
    }
    if count == 0 {
        return None;
    }
    let k = draw_below(count);
    let mut seen: usize = 0;
    let mut j: usize = 0;
    while j < n
        invariant
            j <= n,
            seen <= k,
            seen == count_eligible(quotes@.take(j as int), allow_list@, min_length as int),
            count == count_eligible(quotes@, allow_list@, min_length as int),
            k < count,
        decreases n - j,
    {
        proof {
            assert(quotes@.take(j + 1).drop_last() =~= quotes@.take(j as int));
            assert(quotes@.take(j + 1).last() == quotes@[j as int]);
        }
        if is_eligible(&quotes[j], allow_list, min_length) {
            if seen == k {
                let q = clone_quote(&quotes[j]);
                proof {
                    assert(quotes@.contains(quotes@[j as int]));
                }
                return Some(q);
            }
            seen += 1;
        }
        j += 1;
    }
    proof {
        assert(quotes@.take(n as int) =~= quotes@);
        assert(false);
    }
    None
}

} // verus!
