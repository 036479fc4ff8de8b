// Score store: one record per user, updated atomically per guess outcome.
// The board is the library's model of the persistent score table; an upsert
// is a single read-modify-write of one user's record, so two upserts for the
// same user serialize and neither update is lost.

use vstd::multiset::Multiset;
use vstd::prelude::*;

verus! {

/// One user's persistent score row.
#[derive(Clone, Copy, Debug, PartialEq, Eq, Structural)]
pub struct ScoreRecord {
    pub user_id: i64,
    pub correct_count: u64,
    pub total_attempts: u64,
    pub points: i64,
    pub current_streak: u64,
    pub best_streak: u64,
}

/// A single record is well formed: no more correct guesses than attempts,
/// and the best streak is at least the current one.
pub open spec fn record_wf(r: ScoreRecord) -> bool {
    &&& r.correct_count <= r.total_attempts
    &&& r.current_streak <= r.best_streak
}

/// The seed for a user's first participation: everything at zero.
pub open spec fn zero_record(user_id: i64) -> ScoreRecord {
    ScoreRecord {
        user_id: user_id,
        correct_count: 0,
        total_attempts: 0,
        points: 0,
        current_streak: 0,
        best_streak: 0,
    }
}

/// What one outcome does to a record: the attempt is counted; a correct
/// guess adds a correct count, extends the streak and raises the best
/// streak; an incorrect guess resets the streak; the point delta is added.
pub open spec fn spec_apply_outcome(r: ScoreRecord, is_correct: bool, delta: int) -> ScoreRecord {
    ScoreRecord {
        user_id: r.user_id,
        correct_count: if is_correct {
            (r.correct_count + 1) as u64
        } else {
            r.correct_count
        },
        total_attempts: (r.total_attempts + 1) as u64,
        points: (r.points + delta) as i64,
        current_streak: if is_correct {
            (r.current_streak + 1) as u64
        } else {
            0u64
        },
        best_streak: if is_correct && r.current_streak + 1 > r.best_streak {
            (r.current_streak + 1) as u64
        } else {
            r.best_streak
        },
    }
}

/// The record can take `n` more outcomes without any counter or the point
/// total overflowing its machine type.
pub open spec fn can_absorb(r: ScoreRecord, n: int) -> bool {
    &&& r.correct_count + n <= u64::MAX
    &&& r.total_attempts + n <= u64::MAX
    &&& r.current_streak + n <= u64::MAX
    &&& r.best_streak + n <= u64::MAX
    &&& r.points + n * 125 <= i64::MAX
    &&& i64::MIN <= r.points - n * 125
}

/// Index of the first record for `user_id`, or -1 if there is none.
pub open spec fn find_user(s: Seq<ScoreRecord>, user_id: i64) -> int
    decreases s.len(),
{
    if s.len() == 0 {
        -1
    } else if s[0].user_id == user_id {
        0
    } else {
        let rest = find_user(s.drop_first(), user_id);
        if rest < 0 {
            -1
        } else {
            rest + 1
        }
    }
}

pub open spec fn has_user(s: Seq<ScoreRecord>, user_id: i64) -> bool {
    find_user(s, user_id) >= 0
}

/// The stored record for `user_id`, or the zero seed if none is stored yet.
pub open spec fn spec_get(s: Seq<ScoreRecord>, user_id: i64) -> ScoreRecord {
    if has_user(s, user_id) {
        s[find_user(s, user_id)]
    } else {
        zero_record(user_id)
    }
}

/// The board after one upsert: the user's record (or the zero seed) with the
/// outcome applied, in place if present, appended otherwise.
pub open spec fn spec_upsert(
    s: Seq<ScoreRecord>,
    user_id: i64,
    is_correct: bool,
    delta: int,
) -> Seq<ScoreRecord> {
    let applied = spec_apply_outcome(spec_get(s, user_id), is_correct, delta);
    if has_user(s, user_id) {
        s.update(find_user(s, user_id), applied)
    } else {
        s.push(applied)
    }
}

/// A well-formed board: user ids are unique, and every stored record is well
/// formed and has recorded at least one attempt.
pub open spec fn board_wf(s: Seq<ScoreRecord>) -> bool {
    &&& forall|i: int, j: int|
        0 <= i < j < s.len() ==> #[trigger] s[i].user_id != #[trigger] s[j].user_id
    &&& forall|i: int|
        0 <= i < s.len() ==> record_wf(#[trigger] s[i]) && s[i].total_attempts >= 1
}

pub proof fn lemma_find_user(s: Seq<ScoreRecord>, user_id: i64)
    ensures
        find_user(s, user_id) >= 0 ==> 0 <= find_user(s, user_id) < s.len() && s[find_user(
            s,
            user_id,
        )].user_id == user_id,
        find_user(s, user_id) < 0 ==> forall|i: int|
            0 <= i < s.len() ==> (#[trigger] s[i]).user_id != user_id,
        forall|i: int|
            0 <= i < find_user(s, user_id) ==> (#[trigger] s[i]).user_id != user_id,
    decreases s.len(),
{
    if s.len() > 0 && s[0].user_id != user_id {
        lemma_find_user(s.drop_first(), user_id);
        assert(forall|i: int|
            1 <= i < s.len() ==> #[trigger] s[i] == s.drop_first()[i - 1]);
    }
}

/// Two sequences whose records carry the same user ids position by position
/// locate every user at the same index.
proof fn lemma_find_user_same_ids(s: Seq<ScoreRecord>, t: Seq<ScoreRecord>, user_id: i64)
    requires
        s.len() == t.len(),
        forall|i: int| 0 <= i < s.len() ==> (#[trigger] s[i]).user_id == t[i].user_id,
    ensures
        find_user(s, user_id) == find_user(t, user_id),
    decreases s.len(),
{
    if s.len() > 0 {
        assert(forall|i: int|
            1 <= i < s.len() ==> #[trigger] s[i] == s.drop_first()[i - 1]);
        assert(forall|i: int|
            1 <= i < t.len() ==> #[trigger] t[i] == t.drop_first()[i - 1]);
        lemma_find_user_same_ids(s.drop_first(), t.drop_first(), user_id);
    }
}

proof fn lemma_find_user_push(s: Seq<ScoreRecord>, r: ScoreRecord, user_id: i64)
    ensures
        find_user(s.push(r), user_id) == if find_user(s, user_id) >= 0 {
            find_user(s, user_id)
        } else if r.user_id == user_id {
            s.len() as int
        } else {
            -1
        },
    decreases s.len(),
{
    if s.len() == 0 {
        assert(s.push(r)[0] == r);
        assert(s.push(r).len() == 1);
        assert(find_user(s, user_id) == -1);
        if r.user_id == user_id {
            assert(find_user(s.push(r), user_id) == 0);
        } else {
            assert(s.push(r).drop_first() =~= Seq::<ScoreRecord>::empty());
            assert(find_user(s.push(r).drop_first(), user_id) == -1);
            assert(find_user(s.push(r), user_id) == -1);
        }
    } else {
        assert(s.push(r)[0] == s[0]);
        assert(s.push(r).drop_first() =~= s.drop_first().push(r));
        lemma_find_user_push(s.drop_first(), r, user_id);
        assert(find_user(s.push(r), user_id) == if s[0].user_id == user_id {
            0
        } else {
            let rest = find_user(s.drop_first().push(r), user_id);
            if rest < 0 {
                -1
            } else {
                rest + 1
            }
        });
        assert(find_user(s, user_id) == if s[0].user_id == user_id {
            0
        } else {
            let rest = find_user(s.drop_first(), user_id);
            if rest < 0 {
                -1
            } else {
                rest + 1
            }
        });
    }
}

/// How one upsert changes what each user's lookup returns, and that it keeps
/// the board well formed.
pub proof fn lemma_upsert_get(s: Seq<ScoreRecord>, user_id: i64, is_correct: bool, delta: int)
    requires
        board_wf(s),
        can_absorb(spec_get(s, user_id), 1),
        -125 <= delta <= 125,
    ensures
        board_wf(spec_upsert(s, user_id, is_correct, delta)),
        spec_get(spec_upsert(s, user_id, is_correct, delta), user_id) == spec_apply_outcome(
            spec_get(s, user_id),
            is_correct,
            delta,
        ),
        forall|u: i64|
            u != user_id ==> #[trigger] spec_get(spec_upsert(s, user_id, is_correct, delta), u)
                == spec_get(s, u),
        spec_upsert(s, user_id, is_correct, delta).len() == if has_user(s, user_id) {
            s.len()
        } else {
            s.len() + 1
        },
{
    let prior = spec_get(s, user_id);
    let applied = spec_apply_outcome(prior, is_correct, delta);
    let t = spec_upsert(s, user_id, is_correct, delta);
    lemma_find_user(s, user_id);
    if has_user(s, user_id) {
        let i = find_user(s, user_id);
        assert(forall|k: int| 0 <= k < s.len() ==> (#[trigger] s[k]).user_id == t[k].user_id);
        assert forall|u: i64| true implies #[trigger] find_user(t, u) == find_user(s, u) by {
            lemma_find_user_same_ids(s, t, u);
        }
        assert forall|u: i64| u != user_id implies #[trigger] spec_get(t, u) == spec_get(s, u) by {
            lemma_find_user(s, u);
            if has_user(s, u) {
                assert(find_user(s, u) != i);
            }
        }
    } else {
        assert forall|u: i64| true implies #[trigger] find_user(t, u) == (if find_user(s, u) >= 0 {
            find_user(s, u)
        } else if u == user_id {
            s.len() as int
        } else {
            -1
        }) by {
            lemma_find_user_push(s, applied, u);
        }
        assert forall|u: i64| u != user_id implies #[trigger] spec_get(t, u) == spec_get(s, u) by {
            lemma_find_user(s, u);
        }
        assert forall|i: int, j: int| 0 <= i < j < t.len() implies #[trigger] t[i].user_id
            != #[trigger] t[j].user_id by {
            if j == s.len() as int {
                lemma_find_user(s, user_id);
            }
        }
    }
}

/// The in-memory score board: the library's model of the persistent score
/// table, keyed by user id.
pub struct ScoreBoard {
    pub records: Vec<ScoreRecord>,
}

impl View for ScoreBoard {
    type V = Seq<ScoreRecord>;

    open spec fn view(&self) -> Seq<ScoreRecord> {
        self.records@
    }
}

impl ScoreBoard {
    pub open spec fn wf(&self) -> bool {
        board_wf(self@)
    }

    /// An empty board.
    pub fn new() -> (board: ScoreBoard)
        ensures
            board.wf(),
            board@.len() == 0,
    {
        ScoreBoard { records: Vec::new() }
    }

    /// Atomically creates or updates the record for `user_id` with one guess
    /// outcome, and returns the record as stored afterwards.
    #[verifier::loop_isolation(false)]
    pub fn upsert_score(&mut self, user_id: i64, is_correct: bool, points_delta: i32) -> (rec:
        ScoreRecord)
        requires
            old(self).wf(),
            can_absorb(spec_get(old(self)@, user_id), 1),
            -125 <= points_delta <= 125,
        ensures
            final(self).wf(),
            final(self)@ == spec_upsert(old(self)@, user_id, is_correct, points_delta as int),
            rec == spec_apply_outcome(spec_get(old(self)@, user_id), is_correct, points_delta as int),
            spec_get(final(self)@, user_id) == rec,
            forall|u: i64|
                u != user_id ==> #[trigger] spec_get(final(self)@, u) == spec_get(old(self)@, u),
    {
        proof {
            lemma_upsert_get(old(self)@, user_id, is_correct, points_delta as int);
            lemma_find_user(old(self)@, user_id);
        }
        let n = self.records.len();
        let mut i: usize = 0;
        while i < n
            invariant
                n == self.records.len(),
                i <= n,
                *self == *old(self),
                forall|j: int| 0 <= j < i ==> (#[trigger] self.records@[j]).user_id != user_id,
            decreases n - i,
        {
            if self.records[i].user_id == user_id {
                let prior = self.records[i];
                proof {
                    assert(find_user(old(self)@, user_id) == i as int);
                }
                let rec = apply_outcome(prior, is_correct, points_delta);
                self.records.set(i, rec);
                return rec;
            }
            i += 1;
        }
        proof {
            assert(!has_user(old(self)@, user_id));
        }
        let rec = apply_outcome(zero_record_exec(user_id), is_correct, points_delta);
        self.records.push(rec);
        rec
    }

    /// Looks up the stored record for `user_id`.
    #[verifier::loop_isolation(false)]
    pub fn fetch_score(&self, user_id: i64) -> (r: Option<ScoreRecord>)
        ensures
            match r {
                Some(rec) => has_user(self@, user_id) && rec == spec_get(self@, user_id),
                None => !has_user(self@, user_id),
            },
    {
        proof {
            lemma_find_user(self@, user_id);
        }
        let n = self.records.len();
        let mut i: usize = 0;
        while i < n
            invariant
                n == self.records.len(),
                i <= n,
                forall|j: int| 0 <= j < i ==> (#[trigger] self.records@[j]).user_id != user_id,
            decreases n - i,
        {
            if self.records[i].user_id == user_id {
                proof {
                    lemma_find_user(self@, user_id);
                    assert(find_user(self@, user_id) == i as int);
                }
                return Some(self.records[i]);
            }
            i += 1;
        }
        None
    }
}

/// Scoreboard order: more points first; on equal points, the better accuracy
/// (correct guesses per attempt, compared by cross-multiplication) first.
pub open spec fn rank_ge(a: ScoreRecord, b: ScoreRecord) -> bool {
    ||| a.points > b.points
    ||| (a.points == b.points && a.correct_count * b.total_attempts >= b.correct_count
        * a.total_attempts)
}

pub open spec fn sorted_by_rank(s: Seq<ScoreRecord>) -> bool {
    forall|i: int, j: int| 0 <= i < j < s.len() ==> rank_ge(#[trigger] s[i], #[trigger] s[j])
}

/// Any two records are comparable under the scoreboard order.
pub proof fn lemma_rank_ge_total(a: ScoreRecord, b: ScoreRecord)
    ensures
        rank_ge(a, b) || rank_ge(b, a),
{
}

/// The scoreboard order is transitive on records with at least one attempt.
pub proof fn lemma_rank_ge_trans(a: ScoreRecord, b: ScoreRecord, c: ScoreRecord)
    requires
        rank_ge(a, b),
        rank_ge(b, c),
        a.total_attempts >= 1,
        b.total_attempts >= 1,
        c.total_attempts >= 1,
    ensures
        rank_ge(a, c),
{
    if a.points == b.points && b.points == c.points {
        let ac = a.correct_count as int;
        let at = a.total_attempts as int;
        let bc = b.correct_count as int;
        let bt = b.total_attempts as int;
        let cc = c.correct_count as int;
        let ct = c.total_attempts as int;
        assert(ac * ct >= cc * at) by (nonlinear_arith)
            requires
                ac * bt >= bc * at,
                bc * ct >= cc * bt,
                at >= 1,
                bt >= 1,
                ct >= 1,
        ;
    }
}

fn rank_ge_exec(a: &ScoreRecord, b: &ScoreRecord) -> (r: bool)
    ensures
        r == rank_ge(*a, *b),
{
    if a.points != b.points {
        a.points > b.points
    } else {
        proof {
            vstd::arithmetic::mul::lemma_mul_upper_bound(
                a.correct_count as int,
                u64::MAX as int,
                b.total_attempts as int,
                u64::MAX as int,
            );
            vstd::arithmetic::mul::lemma_mul_upper_bound(
                b.correct_count as int,
                u64::MAX as int,
                a.total_attempts as int,
                u64::MAX as int,
            );
        }
        (a.correct_count as u128) * (b.total_attempts as u128) >= (b.correct_count as u128) * (
        a.total_attempts as u128)
    }
}

/// `top` is the first `limit` entries of some scoreboard ordering of `board`.
pub open spec fn is_ranked_prefix(
    board: Seq<ScoreRecord>,
    limit: int,
    top: Seq<ScoreRecord>,
) -> bool {
    exists|sorted: Seq<ScoreRecord>|
        #[trigger] sorted.to_multiset() == board.to_multiset() && sorted_by_rank(sorted) && top
            == sorted.take(if limit <= board.len() { limit } else { board.len() as int })
}

/// Index of a record that every record in `work` ranks at or below.
#[verifier::loop_isolation(false)]
fn max_rank_index(work: &Vec<ScoreRecord>) -> (mi: usize)
    requires
        work@.len() > 0,
        forall|i: int| 0 <= i < work@.len() ==> (#[trigger] work@[i]).total_attempts >= 1,
    ensures
        mi < work@.len(),
        forall|k: int| 0 <= k < work@.len() ==> rank_ge(work@[mi as int], #[trigger] work@[k]),
{
    let mut mi: usize = 0;
    let mut k: usize = 1;
    while k < work.len()
        invariant
            mi < k <= work@.len(),
            forall|j: int| 0 <= j < k ==> rank_ge(work@[mi as int], #[trigger] work@[j]),
        decreases work@.len() - k,
    {
        if !rank_ge_exec(&work[mi], &work[k]) {
            proof {
                lemma_rank_ge_total(work@[mi as int], work@[k as int]);
                assert forall|j: int| 0 <= j < k implies rank_ge(
                    work@[k as int],
                    #[trigger] work@[j],
                ) by {
                    lemma_rank_ge_trans(work@[k as int], work@[mi as int], work@[j]);
                }
            }
            mi = k;
        }
        k += 1;
    }
    mi
}

impl ScoreBoard {
    /// The scoreboard: at most `limit` records, every stored record ranked
    /// at or below the ones shown, in scoreboard order.
    #[verifier::loop_isolation(false)]
    pub fn top_scores(&self, limit: usize) -> (top: Vec<ScoreRecord>)
        requires
            self.wf(),
        ensures
            top@.len() == if limit <= self@.len() {
                limit as int
            } else {
                self@.len() as int
            },
            sorted_by_rank(top@),
            is_ranked_prefix(self@, limit as int, top@),
    {
        broadcast use vstd::seq_lib::group_to_multiset_ensures;

        let n = self.records.len();
        let mut work: Vec<ScoreRecord> = Vec::new();
        let mut i: usize = 0;
        while i < n
            invariant
                i <= n,
                work@ == self@.take(i as int),
            decreases n - i,
        {
            work.push(self.records[i]);
            proof {
                assert(work@ =~= self@.take(i + 1));
            }
            i += 1;
        }
        proof {
            assert(work@ =~= self@);
        }
        let mut sorted: Vec<ScoreRecord> = Vec::new();
        while work.len() > 0
            invariant
                sorted@.to_multiset().add(work@.to_multiset()) == self@.to_multiset(),
                sorted_by_rank(sorted@),
                forall|a: int, b: int|
                    0 <= a < sorted@.len() && 0 <= b < work@.len() ==> rank_ge(
                        #[trigger] sorted@[a],
                        #[trigger] work@[b],
                    ),
                forall|a: int|
                    0 <= a < sorted@.len() ==> (#[trigger] sorted@[a]).total_attempts >= 1,
                forall|b: int| 0 <= b < work@.len() ==> (#[trigger] work@[b]).total_attempts >= 1,
            decreases work@.len(),
        {
            let ghost old_work = work@;
            let ghost old_sorted = sorted@;
            let mi = max_rank_index(&work);
            let rec = work.remove(mi);
            sorted.push(rec);
            proof {
                assert(old_work.contains(rec));
                assert(sorted@.to_multiset() =~= old_sorted.to_multiset().insert(rec));
                assert(work@.to_multiset() =~= old_work.to_multiset().remove(rec));
                assert(sorted@.to_multiset().add(work@.to_multiset()) =~= old_sorted.to_multiset().add(
                    old_work.to_multiset(),
                ));
                assert(forall|b: int|
                    0 <= b < work@.len() ==> #[trigger] work@[b] == if b < mi {
                        old_work[b]
                    } else {
                        old_work[b + 1]
                    });
            }
        }
        proof {
            assert(work@.to_multiset() =~= Multiset::<ScoreRecord>::empty());
            assert(sorted@.to_multiset() =~= self@.to_multiset());
        }
        let ghost full = sorted@;
        let mut top = sorted;
        top.truncate(limit);
        proof {
            let bound = if limit as int <= self@.len() {
                limit as int
            } else {
                self@.len() as int
            };
            assert(full.to_multiset().len() == self@.to_multiset().len());
            assert(full.len() == self@.len());
            assert(top@ =~= full.take(bound));
        }
        top
    }
}

/// The accuracy shown beside a record: correct guesses as a percentage of
/// attempts, rounded half away from zero.
pub open spec fn spec_accuracy_percent(correct: int, total: int) -> int {
    (correct * 100 + total / 2) / total
}

/// Rounded percentage of correct guesses among attempts.
pub fn accuracy_percent(correct: u64, total: u64) -> (p: u32)
    requires
        total >= 1,
        correct <= total,
    ensures
        p == spec_accuracy_percent(correct as int, total as int),
        p <= 100,
{
    let c = correct as u128;
    let t = total as u128;
    let p = (c * 100 + t / 2) / t;
    proof {
        let ci = correct as int;
        let ti = total as int;
        assert(ci * 100 + ti / 2 < ti * 101) by (nonlinear_arith)
            requires
                ci <= ti,
                ti >= 1,
        ;
        assert((ci * 100 + ti / 2) / ti <= 100) by (nonlinear_arith)
            requires
                ci * 100 + ti / 2 < ti * 101,
                ti >= 1,
        ;
    }
    p as u32
}

/// Law: two upserts for the same user, serialized in either order, lose
/// neither update: both attempts are counted, the one correct guess is
/// counted once, and the final streak is the last writer's.
pub proof fn lemma_upsert_pair_no_lost_update(
    s: Seq<ScoreRecord>,
    user_id: i64,
    d1: int,
    d2: int,
)
    requires
        board_wf(s),
        can_absorb(spec_get(s, user_id), 2),
        -125 <= d1 <= 125,
        -125 <= d2 <= 125,
    ensures
        ({
            let r = spec_get(
                spec_upsert(spec_upsert(s, user_id, true, d1), user_id, false, d2),
                user_id,
            );
            &&& r.total_attempts == spec_get(s, user_id).total_attempts + 2
            &&& r.correct_count == spec_get(s, user_id).correct_count + 1
            &&& r.points == spec_get(s, user_id).points + d1 + d2
            &&& r.current_streak == 0
        }),
        ({
            let r = spec_get(
                spec_upsert(spec_upsert(s, user_id, false, d2), user_id, true, d1),
                user_id,
            );
            &&& r.total_attempts == spec_get(s, user_id).total_attempts + 2
            &&& r.correct_count == spec_get(s, user_id).correct_count + 1
            &&& r.points == spec_get(s, user_id).points + d1 + d2
            &&& r.current_streak == 1
        }),
{
    lemma_upsert_get(s, user_id, true, d1);
    lemma_upsert_get(spec_upsert(s, user_id, true, d1), user_id, false, d2);
    lemma_upsert_get(s, user_id, false, d2);
    lemma_upsert_get(spec_upsert(s, user_id, false, d2), user_id, true, d1);
}

fn zero_record_exec(user_id: i64) -> (r: ScoreRecord)
    ensures
        r == zero_record(user_id),
{
    ScoreRecord {
        user_id: user_id,
        correct_count: 0,
        total_attempts: 0,
        points: 0,
        current_streak: 0,
        best_streak: 0,
    }
}

fn apply_outcome(r: ScoreRecord, is_correct: bool, delta: i32) -> (applied: ScoreRecord)
    requires
        can_absorb(r, 1),
        -125 <= delta <= 125,
    ensures
        applied == spec_apply_outcome(r, is_correct, delta as int),
{
    let new_streak: u64 = if is_correct {
        r.current_streak + 1
    } else {
        0
    };
    ScoreRecord {
        user_id: r.user_id,
        correct_count: if is_correct {
            r.correct_count + 1
        } else {
            r.correct_count
        },
        total_attempts: r.total_attempts + 1,
        points: if delta >= 0 {
            r.points + (delta as i64)
        } else {
            r.points - ((-delta) as i64)
        },
        current_streak: new_streak,
        best_streak: if is_correct && new_streak > r.best_streak {
            new_streak
        } else {
            r.best_streak
        },
    }
}

} // verus!
