use vstd::prelude::*;

use crate::records::UserRating;

verus! {

/// Where an entry with `score` points goes in a list that is sorted by
/// descending points: behind every entry that has at least as many points.
pub open spec fn insertion_index(sorted: Seq<UserRating>, score: i32) -> int
    decreases sorted.len(),
{
    if sorted.len() == 0 {
        0
    } else if sorted.last().score_sum >= score {
        sorted.len() as int
    } else {
        insertion_index(sorted.drop_last(), score)
    }
}

/// `ratings` sorted by descending points, entries with equal points in their
/// input order.
pub open spec fn sorted_by_points(ratings: Seq<UserRating>) -> Seq<UserRating>
    decreases ratings.len(),
{
    if ratings.len() == 0 {
        ratings
    } else {
        let rest = sorted_by_points(ratings.drop_last());
        rest.insert(insertion_index(rest, ratings.last().score_sum), ratings.last())
    }
}

/// No entry has more points than the one before it.
pub open spec fn descending_points(ratings: Seq<UserRating>) -> bool {
    forall|i: int, j: int|
        0 <= i <= j < ratings.len() ==> ratings[i].score_sum >= ratings[j].score_sum
}

/// The leaderboard position of entry `i` of a sorted list: one more than its
/// index where its points differ from those of the entry before it, the
/// position of that entry otherwise. The first entry counts as different
/// from a predecessor with -1 points.
pub open spec fn rank_at(sorted: Seq<UserRating>, i: int) -> i32
    decreases i,
{
    if i <= 0 {
        if sorted[0].score_sum != -1 {
            1
        } else {
            0
        }
    } else if sorted[i].score_sum != sorted[i - 1].score_sum {
        (i + 1) as i32
    } else {
        rank_at(sorted, i - 1)
    }
}

/// `after` is the leaderboard made of `before`: the entries sorted by
/// descending points, each with its position, and with its match details
/// emptied where `clear_tips` asks for it and kept otherwise.
pub open spec fn leaderboard(before: Seq<UserRating>, after: Seq<UserRating>, clear_tips: bool) -> bool {
    let sorted = sorted_by_points(before);
    &&& after.len() == sorted.len()
    &&& forall|i: int|
        0 <= i < after.len() ==> #[trigger] after[i] == (UserRating {
            position: rank_at(sorted, i),
            tips: after[i].tips,
            ..sorted[i]
        })
    &&& forall|i: int|
        0 <= i < after.len() ==> if clear_tips {
            (#[trigger] after[i]).tips@.len() == 0
        } else {
            after[i].tips == sorted[i].tips
        }
}

proof fn lemma_insertion_index_bounds(sorted: Seq<UserRating>, score: i32)
    ensures
        0 <= insertion_index(sorted, score) <= sorted.len(),
    decreases sorted.len(),
{
    if sorted.len() > 0 {
        lemma_insertion_index_bounds(sorted.drop_last(), score);
    }
}

proof fn lemma_sorted_len(ratings: Seq<UserRating>)
    ensures
        sorted_by_points(ratings).len() == ratings.len(),
    decreases ratings.len(),
{
    if ratings.len() > 0 {
        let rest = sorted_by_points(ratings.drop_last());
        lemma_sorted_len(ratings.drop_last());
        lemma_insertion_index_bounds(rest, ratings.last().score_sum);
    }
}

/// The entries of `ratings` with exactly `points` points, in their order.
pub open spec fn with_points(ratings: Seq<UserRating>, points: i32) -> Seq<UserRating>
    decreases ratings.len(),
{
    if ratings.len() == 0 {
        ratings
    } else if ratings.last().score_sum == points {
        with_points(ratings.drop_last(), points).push(ratings.last())
    } else {
        with_points(ratings.drop_last(), points)
    }
}

proof fn lemma_with_points_push(s: Seq<UserRating>, x: UserRating, points: i32)
    ensures
        with_points(s.push(x), points) == if x.score_sum == points {
            with_points(s, points).push(x)
        } else {
            with_points(s, points)
        },
{
    assert(s.push(x).drop_last() =~= s);
}

proof fn lemma_with_points_add(a: Seq<UserRating>, b: Seq<UserRating>, points: i32)
    ensures
        with_points(a + b, points) == with_points(a, points) + with_points(b, points),
    decreases b.len(),
{
    if b.len() == 0 {
        assert(a + b =~= a);
        assert(with_points(a, points) + with_points(b, points) =~= with_points(a, points));
    } else {
        lemma_with_points_add(a, b.drop_last(), points);
        assert((a + b).drop_last() =~= a + b.drop_last());
        assert((a + b).last() == b.last());
        if b.last().score_sum == points {
            assert(with_points(a, points) + with_points(b.drop_last(), points).push(b.last()) =~= (
            with_points(a, points) + with_points(b.drop_last(), points)).push(b.last()));
        }
    }
}

proof fn lemma_with_points_none(s: Seq<UserRating>, points: i32)
    requires
        forall|k: int| 0 <= k < s.len() ==> #[trigger] s[k].score_sum != points,
    ensures
        with_points(s, points).len() == 0,
    decreases s.len(),
{
    if s.len() > 0 {
        assert forall|k: int| 0 <= k < s.drop_last().len() implies #[trigger] s.drop_last()[k].score_sum
            != points by {
            assert(s.drop_last()[k] == s[k]);
        }
        lemma_with_points_none(s.drop_last(), points);
    }
}

proof fn lemma_with_points_member(s: Seq<UserRating>, points: i32)
    requires
        with_points(s, points).len() > 0,
    ensures
        exists|k: int| 0 <= k < s.len() && s[k].score_sum == points,
    decreases s.len(),
{
    if s.last().score_sum != points {
        lemma_with_points_member(s.drop_last(), points);
        let k = choose|k: int| 0 <= k < s.drop_last().len() && s.drop_last()[k].score_sum == points;
        assert(s[k] == s.drop_last()[k]);
    }
}

proof fn lemma_drop_last_descending(s: Seq<UserRating>)
    requires
        descending_points(s),
        s.len() > 0,
    ensures
        descending_points(s.drop_last()),
{
    assert forall|i: int, j: int| 0 <= i <= j < s.drop_last().len() implies s.drop_last()[i].score_sum
        >= s.drop_last()[j].score_sum by {
        assert(s[i].score_sum >= s[j].score_sum);
    }
}

/// Two lists sorted by descending points that hold, for every score, the
/// same entries with that score in the same order, are equal.
proof fn lemma_descending_determined_by_groups(t: Seq<UserRating>, u: Seq<UserRating>)
    requires
        descending_points(t),
        descending_points(u),
        forall|points: i32| #[trigger] with_points(t, points) == with_points(u, points),
    ensures
        t == u,
    decreases t.len(),
{
    if t.len() == 0 {
        if u.len() > 0 {
            assert(with_points(u, u.last().score_sum).len() > 0);
            assert(with_points(t, u.last().score_sum).len() == 0);
        }
        assert(t =~= u);
    } else {
        if u.len() == 0 {
            assert(with_points(t, t.last().score_sum).len() > 0);
            assert(with_points(u, t.last().score_sum).len() == 0);
        }
        let a = t.last().score_sum;
        let b = u.last().score_sum;
        assert(with_points(t, a).len() > 0);
        assert(with_points(u, a).len() > 0);
        lemma_with_points_member(u, a);
        let k = choose|k: int| 0 <= k < u.len() && u[k].score_sum == a;
        assert(u[k].score_sum >= u[u.len() - 1].score_sum);
        assert(with_points(u, b).len() > 0);
        assert(with_points(t, b).len() > 0);
        lemma_with_points_member(t, b);
        let m = choose|m: int| 0 <= m < t.len() && t[m].score_sum == b;
        assert(t[m].score_sum >= t[t.len() - 1].score_sum);
        assert(a == b);
        assert(with_points(t, a).last() == t.last());
        assert(with_points(u, a).last() == u.last());
        lemma_drop_last_descending(t);
        lemma_drop_last_descending(u);
        assert forall|points: i32| #[trigger] with_points(t.drop_last(), points) == with_points(
            u.drop_last(),
            points,
        ) by {
            assert(with_points(t, points) == with_points(u, points));
            if points == a {
                assert(with_points(t, a).drop_last() =~= with_points(t.drop_last(), a));
                assert(with_points(u, a).drop_last() =~= with_points(u.drop_last(), a));
            }
        }
        lemma_descending_determined_by_groups(t.drop_last(), u.drop_last());
        assert(t =~= t.drop_last().push(t.last()));
        assert(u =~= u.drop_last().push(u.last()));
    }
}

/// Sorting keeps, for every score, the entries with that score in their
/// input order.
proof fn lemma_sorted_keeps_groups(ratings: Seq<UserRating>)
    ensures
        forall|points: i32|
            #[trigger] with_points(sorted_by_points(ratings), points) == with_points(ratings, points),
    decreases ratings.len(),
{
    if ratings.len() == 0 {
        assert(sorted_by_points(ratings) == ratings);
    } else {
        let rest = sorted_by_points(ratings.drop_last());
        let x = ratings.last();
        lemma_sorted_keeps_groups(ratings.drop_last());
        lemma_sorted_is_descending(ratings.drop_last());
        lemma_insertion_index_bounds(rest, x.score_sum);
        lemma_insertion_index_split(rest, x.score_sum);
        let k = insertion_index(rest, x.score_sum);
        let front = rest.subrange(0, k);
        let back = rest.subrange(k, rest.len() as int);
        assert(rest.insert(k, x) == front.push(x) + back);
        assert(rest =~= front + back);
        assert(ratings =~= ratings.drop_last().push(x));
        assert forall|points: i32| #[trigger] with_points(sorted_by_points(ratings), points)
            == with_points(ratings, points) by {
            lemma_with_points_add(front.push(x), back, points);
            lemma_with_points_add(front, back, points);
            lemma_with_points_push(front, x, points);
            lemma_with_points_push(ratings.drop_last(), x, points);
            assert(with_points(rest, points) == with_points(ratings.drop_last(), points));
            if x.score_sum == points {
                assert forall|j: int| 0 <= j < back.len() implies #[trigger] back[j].score_sum
                    != points by {
                    assert(back[j] == rest[k + j]);
                }
                lemma_with_points_none(back, points);
                assert(with_points(front, points) + with_points(back, points) =~= with_points(
                    front,
                    points,
                ));
                assert(with_points(front, points).push(x) + with_points(back, points)
                    =~= with_points(front, points).push(x));
            }
        }
    }
}

/// The entries of `v`, last first.
fn reversed(v: Vec<UserRating>) -> (r: Vec<UserRating>)
    ensures
        r@.len() == v@.len(),
        forall|k: int| 0 <= k < v@.len() ==> #[trigger] r@[k] == v@[v@.len() - 1 - k],
{
    let ghost input = v@;
    let mut rest = v;
    let mut r: Vec<UserRating> = Vec::new();
    while rest.len() > 0
        invariant
            rest@ == input.subrange(0, rest@.len() as int),
            r@.len() + rest@.len() == input.len(),
            forall|k: int| 0 <= k < r@.len() ==> #[trigger] r@[k] == input[input.len() - 1 - k],
        decreases rest@.len(),
    {
        let x = rest.pop().unwrap();
        r.push(x);
    }
    r
}

/// Merges two lists sorted by descending points into one; among entries
/// with equal points those of `left` come first.
fn merge(left: Vec<UserRating>, right: Vec<UserRating>) -> (merged: Vec<UserRating>)
    requires
        descending_points(left@),
        descending_points(right@),
    ensures
        descending_points(merged@),
        forall|points: i32|
            #[trigger] with_points(merged@, points) == with_points(left@, points) + with_points(
                right@,
                points,
            ),
{
    let ghost l = left@;
    let ghost r = right@;
    let mut ls = reversed(left);
    let mut rs = reversed(right);
    let mut out: Vec<UserRating> = Vec::new();
    let ghost mut i: int = 0;
    let ghost mut j: int = 0;
    assert(l.take(0) =~= Seq::<UserRating>::empty());
    assert(r.take(0) =~= Seq::<UserRating>::empty());
    assert forall|points: i32| #[trigger] with_points(out@, points) == with_points(l.take(i), points)
        + with_points(r.take(j), points) by {
        assert(with_points(l.take(i), points) + with_points(r.take(j), points) =~= Seq::<
            UserRating,
        >::empty());
    }
    while ls.len() > 0 || rs.len() > 0
        invariant
            descending_points(l),
            descending_points(r),
            0 <= i <= l.len(),
            0 <= j <= r.len(),
            ls@.len() == l.len() - i,
            rs@.len() == r.len() - j,
            forall|k: int| 0 <= k < ls@.len() ==> #[trigger] ls@[k] == l[l.len() - 1 - k],
            forall|k: int| 0 <= k < rs@.len() ==> #[trigger] rs@[k] == r[r.len() - 1 - k],
            descending_points(out@),
            out@.len() > 0 && i < l.len() ==> out@.last().score_sum >= l[i].score_sum,
            out@.len() > 0 && j < r.len() ==> out@.last().score_sum >= r[j].score_sum,
            i < l.len() ==> forall|k: int| 0 <= k < j ==> #[trigger] r[k].score_sum > l[i].score_sum,
            forall|points: i32|
                #[trigger] with_points(out@, points) == with_points(l.take(i), points)
                    + with_points(r.take(j), points),
        decreases ls@.len() + rs@.len(),
    {
        let take_left = if rs.len() == 0 {
            true
        } else if ls.len() == 0 {
            false
        } else {
            ls[ls.len() - 1].score_sum >= rs[rs.len() - 1].score_sum
        };
        let ghost before = out@;
        if take_left {
            let x = ls.pop().unwrap();
            assert(x == l[i]);
            out.push(x);
            assert(l.take(i + 1) =~= l.take(i).push(x));
            assert forall|points: i32| #[trigger] with_points(out@, points) == with_points(
                l.take(i + 1),
                points,
            ) + with_points(r.take(j), points) by {
                lemma_with_points_push(before, x, points);
                lemma_with_points_push(l.take(i), x, points);
                assert(with_points(before, points) == with_points(l.take(i), points) + with_points(
                    r.take(j),
                    points,
                ));
                if x.score_sum == points {
                    assert forall|k: int| 0 <= k < r.take(j).len() implies #[trigger] r.take(
                        j,
                    )[k].score_sum != points by {
                        assert(r.take(j)[k] == r[k]);
                        assert(r[k].score_sum > l[i].score_sum);
                    }
                    lemma_with_points_none(r.take(j), points);
                    assert((with_points(l.take(i), points) + with_points(r.take(j), points)).push(x)
                        =~= with_points(l.take(i), points).push(x) + with_points(
                        r.take(j),
                        points,
                    ));
                }
            }
            assert forall|a: int, b: int| 0 <= a <= b < out@.len() implies out@[a].score_sum
                >= out@[b].score_sum by {
                if b == out@.len() - 1 && a < b {
                    assert(before[a].score_sum >= before[before.len() - 1].score_sum);
                } else if a < b {
                    assert(before[a].score_sum >= before[b].score_sum);
                }
            }
            assert(i + 1 < l.len() ==> l[i].score_sum >= l[i + 1].score_sum);
            proof {
                i = i + 1;
            }
        } else {
            let y = rs.pop().unwrap();
            assert(y == r[j]);
            out.push(y);
            assert(r.take(j + 1) =~= r.take(j).push(y));
            assert forall|points: i32| #[trigger] with_points(out@, points) == with_points(
                l.take(i),
                points,
            ) + with_points(r.take(j + 1), points) by {
                lemma_with_points_push(before, y, points);
                lemma_with_points_push(r.take(j), y, points);
                assert(with_points(before, points) == with_points(l.take(i), points) + with_points(
                    r.take(j),
                    points,
                ));
                if y.score_sum == points {
                    assert((with_points(l.take(i), points) + with_points(r.take(j), points)).push(y)
                        =~= with_points(l.take(i), points) + with_points(r.take(j), points).push(
                        y,
                    ));
                }
            }
            assert forall|a: int, b: int| 0 <= a <= b < out@.len() implies out@[a].score_sum
                >= out@[b].score_sum by {
                if b == out@.len() - 1 && a < b {
                    assert(before[a].score_sum >= before[before.len() - 1].score_sum);
                } else if a < b {
                    assert(before[a].score_sum >= before[b].score_sum);
                }
            }
            assert(j + 1 < r.len() ==> r[j].score_sum >= r[j + 1].score_sum);
            assert(i < l.len() ==> y.score_sum > l[i].score_sum);
            proof {
                j = j + 1;
            }
        }
    }
    assert(l.take(i) =~= l);
    assert(r.take(j) =~= r);
    out
}

/// Sorts by descending points with a merge sort; entries with equal points
/// keep their order.
fn merge_sort(v: Vec<UserRating>) -> (sorted: Vec<UserRating>)
    ensures
        descending_points(sorted@),
        forall|points: i32| #[trigger] with_points(sorted@, points) == with_points(v@, points),
    decreases v@.len(),
{
    if v.len() <= 1 {
        return v;
    }
    let ghost input = v@;
    let mut left = v;
    let mid = left.len() / 2;
    let right = left.split_off(mid);
    assert(input =~= left@ + right@);
    let ghost gl = left@;
    let ghost gr = right@;
    let sorted_left = merge_sort(left);
    let sorted_right = merge_sort(right);
    let merged = merge(sorted_left, sorted_right);
    assert forall|points: i32| #[trigger] with_points(merged@, points) == with_points(input, points) by {
        lemma_with_points_add(gl, gr, points);
    }
    merged
}

/// Sorts `list` by descending points, keeping entries with equal points in
/// their order.
fn sort_by_points(list: &mut Vec<UserRating>)
    ensures
        final(list)@ == sorted_by_points(old(list)@),
{
    let mut taken: Vec<UserRating> = Vec::new();
    std::mem::swap(list, &mut taken);
    let ghost input = taken@;
    let mut sorted = merge_sort(taken);
    std::mem::swap(list, &mut sorted);
    proof {
        lemma_sorted_is_descending(input);
        lemma_sorted_keeps_groups(input);
        lemma_descending_determined_by_groups(list@, sorted_by_points(input));
    }
}

/// Sorts the ratings by descending points and gives each its leaderboard
/// position; entries with equal points share the position of the first of
/// them. With `clear_tips` the match details of every entry are emptied.
pub fn calculate_positions(user_rating_list: &mut Vec<UserRating>, clear_tips: bool)
    requires
        old(user_rating_list).len() <= i32::MAX,
    ensures
        leaderboard(old(user_rating_list)@, final(user_rating_list)@, clear_tips),
{
    sort_by_points(user_rating_list);
    let ghost sorted = user_rating_list@;
    proof {
        lemma_sorted_len(old(user_rating_list)@);
    }
    let mut position: i32 = 0;
    let mut last_point: i32 = -1;
    let mut position_for_frontend: i32 = 0;
    let n = user_rating_list.len();
    let mut i: usize = 0;
    while i < n
        invariant
            n == user_rating_list@.len(),
            n == sorted.len(),
            n <= i32::MAX,
            i <= n,
            position == i,
            last_point == if i == 0 { -1i32 } else { sorted[i - 1].score_sum },
            position_for_frontend == if i == 0 { 0i32 } else { rank_at(sorted, i - 1) },
            forall|k: int| i <= k < n ==> #[trigger] user_rating_list@[k] == sorted[k],
            forall|k: int|
                0 <= k < i ==> #[trigger] user_rating_list@[k] == (UserRating {
                    position: rank_at(sorted, k),
                    tips: user_rating_list@[k].tips,
                    ..sorted[k]
                }),
            forall|k: int|
                0 <= k < i ==> if clear_tips {
                    (#[trigger] user_rating_list@[k]).tips@.len() == 0
                } else {
                    user_rating_list@[k].tips == sorted[k].tips
                },
        decreases n - i,
    {
        position = position + 1;
        if user_rating_list[i].score_sum != last_point {
            position_for_frontend = position;
        }
        user_rating_list[i].position = position_for_frontend;
        last_point = user_rating_list[i].score_sum;
        if clear_tips {
            user_rating_list[i].tips.clear();
        }
        i = i + 1;
    }
}

} // verus!

verus! {

/// The number of entries of `ratings` with more than `points` points.
pub open spec fn count_above(ratings: Seq<UserRating>, points: i32) -> int
    decreases ratings.len(),
{
    if ratings.len() == 0 {
        0
    } else {
        count_above(ratings.drop_last(), points) + if ratings.last().score_sum > points {
            1int
        } else {
            0int
        }
    }
}

/// The best score among `ratings` is not -1 (the one score that the
/// numbering treats as "no predecessor").
pub open spec fn top_score_is_not_minus_one(ratings: Seq<UserRating>) -> bool {
    forall|i: int|
        0 <= i < ratings.len() && #[trigger] ratings[i].score_sum == -1 ==> exists|j: int|
            0 <= j < ratings.len() && ratings[j].score_sum > -1
}

proof fn lemma_insertion_index_split(sorted: Seq<UserRating>, score: i32)
    requires
        descending_points(sorted),
    ensures
        forall|i: int|
            0 <= i < insertion_index(sorted, score) ==> #[trigger] sorted[i].score_sum >= score,
        forall|i: int|
            insertion_index(sorted, score) <= i < sorted.len() ==> #[trigger] sorted[i].score_sum
                < score,
    decreases sorted.len(),
{
    lemma_insertion_index_bounds(sorted, score);
    if sorted.len() > 0 {
        let n = sorted.len() - 1;
        if sorted.last().score_sum < score {
            let rest = sorted.drop_last();
            assert forall|i: int, j: int| 0 <= i <= j < rest.len() implies rest[i].score_sum
                >= rest[j].score_sum by {
                assert(sorted[i].score_sum >= sorted[j].score_sum);
            }
            lemma_insertion_index_split(rest, score);
            lemma_insertion_index_bounds(rest, score);
            assert forall|i: int| 0 <= i < insertion_index(sorted, score) implies #[trigger] sorted[i].score_sum
                >= score by {
                assert(rest[i] == sorted[i]);
            }
            assert forall|i: int| insertion_index(sorted, score) <= i < sorted.len() implies #[trigger] sorted[i].score_sum
                < score by {
                if i < n {
                    assert(rest[i] == sorted[i]);
                }
            }
        } else {
            assert forall|i: int| 0 <= i < insertion_index(sorted, score) implies #[trigger] sorted[i].score_sum
                >= score by {
                assert(sorted[i].score_sum >= sorted[n].score_sum);
            }
        }
    }
}

proof fn lemma_sorted_is_descending(ratings: Seq<UserRating>)
    ensures
        descending_points(sorted_by_points(ratings)),
    decreases ratings.len(),
{
    if ratings.len() > 0 {
        let rest = sorted_by_points(ratings.drop_last());
        let x = ratings.last();
        lemma_sorted_is_descending(ratings.drop_last());
        lemma_insertion_index_bounds(rest, x.score_sum);
        lemma_insertion_index_split(rest, x.score_sum);
        let k = insertion_index(rest, x.score_sum);
        rest.insert_ensures(k, x);
    }
}

proof fn lemma_insert_to_multiset(s: Seq<UserRating>, k: int, x: UserRating)
    requires
        0 <= k <= s.len(),
    ensures
        s.insert(k, x).to_multiset() =~= s.to_multiset().insert(x),
{
    broadcast use vstd::seq_lib::group_to_multiset_ensures;

    let t = s.insert(k, x);
    s.insert_ensures(k, x);
    assert(t.remove(k) =~= s);
    assert(t[k] == x);
    assert(t.contains(x));
}

proof fn lemma_sorted_to_multiset(ratings: Seq<UserRating>)
    ensures
        sorted_by_points(ratings).to_multiset() =~= ratings.to_multiset(),
    decreases ratings.len(),
{
    broadcast use vstd::seq_lib::group_to_multiset_ensures;

    if ratings.len() > 0 {
        let rest = sorted_by_points(ratings.drop_last());
        let x = ratings.last();
        lemma_sorted_to_multiset(ratings.drop_last());
        lemma_insertion_index_bounds(rest, x.score_sum);
        lemma_insert_to_multiset(rest, insertion_index(rest, x.score_sum), x);
        assert(ratings.drop_last().push(x) =~= ratings);
    } else {
        assert(sorted_by_points(ratings) =~= ratings);
    }
}

proof fn lemma_sorted_of_descending(ratings: Seq<UserRating>)
    requires
        descending_points(ratings),
    ensures
        sorted_by_points(ratings) == ratings,
    decreases ratings.len(),
{
    if ratings.len() > 0 {
        let rest = ratings.drop_last();
        lemma_sorted_of_descending(rest);
        let x = ratings.last();
        if rest.len() > 0 {
            assert(rest.last().score_sum >= x.score_sum);
        }
        assert(insertion_index(rest, x.score_sum) == rest.len());
        assert(rest.insert(rest.len() as int, x) =~= ratings);
    }
}

proof fn lemma_count_above_split(ratings: Seq<UserRating>, points: i32, p: int)
    requires
        0 <= p <= ratings.len(),
        forall|j: int| 0 <= j < p ==> #[trigger] ratings[j].score_sum > points,
        forall|j: int| p <= j < ratings.len() ==> #[trigger] ratings[j].score_sum <= points,
    ensures
        count_above(ratings, points) == p,
    decreases ratings.len(),
{
    if ratings.len() > 0 {
        let rest = ratings.drop_last();
        if p == ratings.len() {
            lemma_count_above_split(rest, points, p - 1);
        } else {
            lemma_count_above_split(rest, points, p);
        }
    }
}

proof fn lemma_rank_counts_better(sorted: Seq<UserRating>, i: int)
    requires
        descending_points(sorted),
        0 <= i < sorted.len(),
        sorted.len() <= i32::MAX,
        sorted[0].score_sum != -1,
    ensures
        rank_at(sorted, i) == 1 + count_above(sorted, sorted[i].score_sum),
    decreases i,
{
    if i == 0 {
        assert forall|j: int| 0 <= j < sorted.len() implies #[trigger] sorted[j].score_sum
            <= sorted[0].score_sum by {
            assert(sorted[0].score_sum >= sorted[j].score_sum);
        }
        lemma_count_above_split(sorted, sorted[0].score_sum, 0);
    } else if sorted[i].score_sum != sorted[i - 1].score_sum {
        assert(sorted[i - 1].score_sum >= sorted[i].score_sum);
        assert forall|j: int| 0 <= j < i implies #[trigger] sorted[j].score_sum
            > sorted[i].score_sum by {
            assert(sorted[j].score_sum >= sorted[i - 1].score_sum);
        }
        assert forall|j: int| i <= j < sorted.len() implies #[trigger] sorted[j].score_sum
            <= sorted[i].score_sum by {
            assert(sorted[i].score_sum >= sorted[j].score_sum);
        }
        lemma_count_above_split(sorted, sorted[i].score_sum, i);
    } else {
        lemma_rank_counts_better(sorted, i - 1);
    }
}

proof fn lemma_rank_same_points(a: Seq<UserRating>, b: Seq<UserRating>, i: int)
    requires
        a.len() == b.len(),
        forall|j: int| 0 <= j < a.len() ==> #[trigger] a[j].score_sum == b[j].score_sum,
        0 <= i < a.len(),
    ensures
        rank_at(a, i) == rank_at(b, i),
    decreases i,
{
    if i > 0 {
        lemma_rank_same_points(a, b, i - 1);
    }
}

proof fn lemma_count_above_same_points(a: Seq<UserRating>, b: Seq<UserRating>, points: i32)
    requires
        a.len() == b.len(),
        forall|j: int| 0 <= j < a.len() ==> #[trigger] a[j].score_sum == b[j].score_sum,
    ensures
        count_above(a, points) == count_above(b, points),
    decreases a.len(),
{
    if a.len() > 0 {
        lemma_count_above_same_points(a.drop_last(), b.drop_last(), points);
    }
}

/// Sorting keeps every entry: the sorted list holds the same entries as
/// the input, each as often.
pub proof fn law_sorting_keeps_entries(ratings: Seq<UserRating>)
    ensures
        sorted_by_points(ratings).to_multiset() == ratings.to_multiset(),
{
    lemma_sorted_to_multiset(ratings);
}

/// Sorting is stable: for every score, the entries with that score come
/// out in their input order.
pub proof fn law_sorting_is_stable(ratings: Seq<UserRating>, points: i32)
    ensures
        with_points(sorted_by_points(ratings), points) == with_points(ratings, points),
{
    lemma_sorted_keeps_groups(ratings);
}

/// A list that is already sorted by descending points is left as it is:
/// entries with equal points keep their order.
pub proof fn law_sorting_keeps_sorted_lists(ratings: Seq<UserRating>)
    requires
        descending_points(ratings),
    ensures
        sorted_by_points(ratings) == ratings,
{
    lemma_sorted_of_descending(ratings);
}

/// The leaderboard is sorted by descending points.
pub proof fn law_leaderboard_is_descending(before: Seq<UserRating>, after: Seq<UserRating>, clear_tips: bool)
    requires
        leaderboard(before, after, clear_tips),
    ensures
        descending_points(after),
{
    let sorted = sorted_by_points(before);
    lemma_sorted_is_descending(before);
    assert forall|i: int, j: int| 0 <= i <= j < after.len() implies after[i].score_sum
        >= after[j].score_sum by {
        assert(after[i].score_sum == sorted[i].score_sum);
        assert(after[j].score_sum == sorted[j].score_sum);
    }
}

/// Entries with equal points share a position, and every position is one
/// more than the number of entries with more points (1, 2, 2, 4, ...),
/// unless the best score is -1.
pub proof fn law_position_counts_better_entries(
    before: Seq<UserRating>,
    after: Seq<UserRating>,
    clear_tips: bool,
    i: int,
)
    requires
        leaderboard(before, after, clear_tips),
        before.len() <= i32::MAX,
        top_score_is_not_minus_one(before),
        0 <= i < after.len(),
    ensures
        after[i].position == 1 + count_above(after, after[i].score_sum),
{
    broadcast use vstd::seq_lib::group_to_multiset_ensures;

    let sorted = sorted_by_points(before);
    lemma_sorted_is_descending(before);
    lemma_sorted_to_multiset(before);
    lemma_sorted_len(before);
    assert forall|j: int| 0 <= j < after.len() implies #[trigger] after[j].score_sum
        == sorted[j].score_sum by {
        assert(after[j].score_sum == sorted[j].score_sum);
    }
    if sorted[0].score_sum == -1 {
        assert(sorted.contains(sorted[0]));
        assert(before.to_multiset().count(sorted[0]) > 0);
        assert(before.contains(sorted[0]));
        let k = choose|k: int| 0 <= k < before.len() && before[k] == sorted[0];
        assert(before[k].score_sum == -1);
        let j = choose|j: int| 0 <= j < before.len() && before[j].score_sum > -1;
        assert(before.contains(before[j]));
        assert(before.to_multiset().count(before[j]) > 0);
        assert(sorted.to_multiset().count(before[j]) > 0);
        assert(sorted.contains(before[j]));
        let m = choose|m: int| 0 <= m < sorted.len() && sorted[m] == before[j];
        assert(sorted[0].score_sum >= sorted[m].score_sum);
    }
    lemma_rank_counts_better(sorted, i);
    lemma_count_above_same_points(after, sorted, after[i].score_sum);
}

/// Ranking a leaderboard again changes nothing but, where the match details
/// were emptied, which empty list holds them.
pub proof fn law_ranking_twice_changes_nothing(
    before: Seq<UserRating>,
    once: Seq<UserRating>,
    twice: Seq<UserRating>,
    clear_tips: bool,
)
    requires
        leaderboard(before, once, clear_tips),
        leaderboard(once, twice, clear_tips),
    ensures
        twice.len() == once.len(),
        forall|i: int|
            0 <= i < once.len() ==> #[trigger] twice[i] == (UserRating { tips: twice[i].tips, ..once[i] })
                && twice[i].tips@ == once[i].tips@,
{
    let sorted = sorted_by_points(before);
    law_leaderboard_is_descending(before, once, clear_tips);
    lemma_sorted_of_descending(once);
    assert forall|j: int| 0 <= j < once.len() implies #[trigger] once[j].score_sum
        == sorted[j].score_sum by {
        assert(once[j].score_sum == sorted[j].score_sum);
    }
    assert forall|i: int| 0 <= i < once.len() implies #[trigger] twice[i] == (UserRating {
        tips: twice[i].tips,
        ..once[i]
    }) && twice[i].tips@ == once[i].tips@ by {
        lemma_rank_same_points(once, sorted, i);
        assert(once[i] == (UserRating { position: rank_at(sorted, i), tips: once[i].tips, ..sorted[i] }));
        assert(twice[i] == (UserRating { position: rank_at(once, i), tips: twice[i].tips, ..once[i] }));
    }
}

proof fn lemma_rank_bounds(sorted: Seq<UserRating>, i: int)
    requires
        0 <= i < sorted.len(),
        sorted.len() <= i32::MAX,
    ensures
        0 <= rank_at(sorted, i) <= i + 1,
    decreases i,
{
    if i > 0 {
        lemma_rank_bounds(sorted, i - 1);
    }
}

proof fn lemma_rank_monotone(sorted: Seq<UserRating>, i: int, j: int)
    requires
        0 <= i <= j < sorted.len(),
        sorted.len() <= i32::MAX,
    ensures
        rank_at(sorted, i) <= rank_at(sorted, j),
    decreases j - i,
{
    if i < j {
        lemma_rank_monotone(sorted, i, j - 1);
        lemma_rank_bounds(sorted, j - 1);
    }
}

/// Along the leaderboard the positions never decrease: it is sorted by
/// position as well as by points.
pub proof fn law_leaderboard_is_ordered_by_position(
    before: Seq<UserRating>,
    after: Seq<UserRating>,
    clear_tips: bool,
)
    requires
        leaderboard(before, after, clear_tips),
        before.len() <= i32::MAX,
    ensures
        forall|i: int, j: int|
            0 <= i <= j < after.len() ==> after[i].position <= after[j].position,
{
    let sorted = sorted_by_points(before);
    lemma_sorted_len(before);
    assert forall|i: int, j: int| 0 <= i <= j < after.len() implies after[i].position
        <= after[j].position by {
        assert(after[i].position == rank_at(sorted, i));
        assert(after[j].position == rank_at(sorted, j));
        lemma_rank_monotone(sorted, i, j);
    }
}

/// Ranking with `clear_tips` leaves no match details; ranking without it
/// keeps each entry's details, and every entry keeps its user and its
/// points.
pub proof fn law_ranking_keeps_users_and_points(before: Seq<UserRating>, after: Seq<UserRating>, clear_tips: bool, i: int)
    requires
        leaderboard(before, after, clear_tips),
        0 <= i < after.len(),
    ensures
        clear_tips ==> after[i].tips@.len() == 0,
        exists|k: int|
            0 <= k < before.len() && after[i].name == before[k].name && after[i].user_id
                == before[k].user_id && after[i].score_sum == before[k].score_sum && after[i].extra_point
                == before[k].extra_point && (!clear_tips ==> after[i].tips == before[k].tips),
{
    broadcast use vstd::seq_lib::group_to_multiset_ensures;

    let sorted = sorted_by_points(before);
    lemma_sorted_to_multiset(before);
    assert(after[i] == (UserRating { position: rank_at(sorted, i), tips: after[i].tips, ..sorted[i] }));
    assert(sorted.contains(sorted[i]));
    assert(sorted.to_multiset().count(sorted[i]) > 0);
    assert(before.to_multiset().count(sorted[i]) > 0);
    assert(before.contains(sorted[i]));
    let k = choose|k: int| 0 <= k < before.len() && before[k] == sorted[i];
    assert(before[k] == sorted[i]);
}

} // verus!
