//! Leaderboard data shapes and ranking rules.
//!
//! The engine never talks to storage itself: rows come in and go out as
//! plain values, and everything here is the pure part of the standings —
//! the rating formula, the one-best-entry-per-player rule for the puzzle
//! boards, and the ordering.

use vstd::prelude::*;

verus! {

/// A stored participant: the storage key, display name, and platform id.
#[derive(Debug, Clone, PartialEq, Eq)]
pub struct User {
    pub id: i64,
    pub name: String,
    pub discord_id: i64,
}

/// How a sliding-puzzle standings query is sorted.
#[derive(Debug, Clone, Copy, PartialEq, Eq, Structural)]
pub enum SlidingPuzzleSortBy {
    Score,
    Time,
}

/// Which (size, difficulty) bucket a standings query reads.
#[derive(Debug, Clone, Copy, PartialEq, Eq, Structural)]
pub struct SlidingPuzzleFilterBy {
    pub difficulty: i32,
    pub size: i32,
}

/// The filters of a sliding-puzzle standings query: a sort key, a bucket,
/// and limit/offset pagination.
#[derive(Debug, Clone, Copy, PartialEq, Eq, Structural)]
pub struct SlidingPuzzleFilters {
    pub sort_by: SlidingPuzzleSortBy,
    pub filter_by: SlidingPuzzleFilterBy,
    pub limit: i64,
    pub offset: i64,
}

impl Default for SlidingPuzzleFilters {
    /// The default query: by score, the easiest three-wide bucket, ten
    /// entries from the first page.
    fn default() -> (r: Self)
        ensures
            (r == SlidingPuzzleFilters {
                sort_by: SlidingPuzzleSortBy::Score,
                filter_by: SlidingPuzzleFilterBy { difficulty: 0, size: 0 },
                limit: 10,
                offset: 0,
            }),
    {
        SlidingPuzzleFilters {
            sort_by: SlidingPuzzleSortBy::Score,
            filter_by: SlidingPuzzleFilterBy { difficulty: 0, size: 0 },
            limit: 10,
            offset: 0,
        }
    }
}

impl SlidingPuzzleFilters {
    pub fn sort_by_score(&mut self)
        ensures
            (*final(self) == SlidingPuzzleFilters {
                sort_by: SlidingPuzzleSortBy::Score,
                ..*old(self)
            }),
    {
        self.sort_by = SlidingPuzzleSortBy::Score;
    }

    pub fn sort_by_time(&mut self)
        ensures
            (*final(self) == SlidingPuzzleFilters { sort_by: SlidingPuzzleSortBy::Time, ..*old(self) }),
    {
        self.sort_by = SlidingPuzzleSortBy::Time;
    }

    pub fn easy(&mut self)
        ensures
            (*final(self) == SlidingPuzzleFilters {
                filter_by: SlidingPuzzleFilterBy { difficulty: 0, ..old(self).filter_by },
                ..*old(self)
            }),
    {
        self.filter_by.difficulty = 0;
    }

    pub fn medium(&mut self)
        ensures
            (*final(self) == SlidingPuzzleFilters {
                filter_by: SlidingPuzzleFilterBy { difficulty: 1, ..old(self).filter_by },
                ..*old(self)
            }),
    {
        self.filter_by.difficulty = 1;
    }

    pub fn hard(&mut self)
        ensures
            (*final(self) == SlidingPuzzleFilters {
                filter_by: SlidingPuzzleFilterBy { difficulty: 2, ..old(self).filter_by },
                ..*old(self)
            }),
    {
        self.filter_by.difficulty = 2;
    }

    pub fn threebythree(&mut self)
        ensures
            (*final(self) == SlidingPuzzleFilters {
                filter_by: SlidingPuzzleFilterBy { size: 0, ..old(self).filter_by },
                ..*old(self)
            }),
    {
        self.filter_by.size = 0;
    }

    pub fn fourbyfour(&mut self)
        ensures
            (*final(self) == SlidingPuzzleFilters {
                filter_by: SlidingPuzzleFilterBy { size: 1, ..old(self).filter_by },
                ..*old(self)
            }),
    {
        self.filter_by.size = 1;
    }

    pub fn fivebyfive(&mut self)
        ensures
            (*final(self) == SlidingPuzzleFilters {
                filter_by: SlidingPuzzleFilterBy { size: 2, ..old(self).filter_by },
                ..*old(self)
            }),
    {
        self.filter_by.size = 2;
    }

    pub fn limit(&mut self, limit: i64)
        ensures
            (*final(self) == SlidingPuzzleFilters { limit, ..*old(self) }),
    {
        self.limit = limit;
    }

    pub fn set_offset(&mut self, offset: i64)
        ensures
            (*final(self) == SlidingPuzzleFilters { offset, ..*old(self) }),
    {
        self.offset = offset;
    }

    pub fn increment_offset(&mut self)
        requires
            old(self).offset < i64::MAX,
        ensures
            (*final(self) == SlidingPuzzleFilters { offset: (old(self).offset + 1) as i64, ..*old(self) }),
    {
        self.offset = self.offset + 1;
    }

    pub fn decrement_offset(&mut self)
        requires
            old(self).offset > i64::MIN,
        ensures
            (*final(self) == SlidingPuzzleFilters { offset: (old(self).offset - 1) as i64, ..*old(self) }),
    {
        self.offset = self.offset - 1;
    }

    /// Where the page starts: the offset counts pages of `limit` rows.
    pub fn paginated_offset(&self) -> (r: i64)
        requires
            i64::MIN <= self.offset * self.limit <= i64::MAX,
        ensures
            r == self.offset * self.limit,
    {
        self.offset * self.limit
    }
}

/// One stored sliding-puzzle result, as plain values: who, which bucket,
/// the score and time, and a submission stamp for tie-breaking.
#[derive(Debug, Clone, Copy, PartialEq, Eq, Structural)]
pub struct PuzzleRow {
    pub user_id: i64,
    pub difficulty: i32,
    pub size: i32,
    pub score: i32,
    pub time: i32,
    pub created_at: i64,
}

/// The lexicographic "better result" order used to deduplicate: lowest
/// score first, then lowest time, then earliest submission.
pub open spec fn better(a: PuzzleRow, b: PuzzleRow) -> bool {
    ||| a.score < b.score
    ||| (a.score == b.score && a.time < b.time)
    ||| (a.score == b.score && a.time == b.time && a.created_at < b.created_at)
}

/// The sort key order for the final listing.
pub open spec fn row_le(sort_by: SlidingPuzzleSortBy, a: PuzzleRow, b: PuzzleRow) -> bool {
    match sort_by {
        SlidingPuzzleSortBy::Score => {
            ||| a.score < b.score
            ||| (a.score == b.score && a.time < b.time)
            ||| (a.score == b.score && a.time == b.time && a.created_at <= b.created_at)
        },
        SlidingPuzzleSortBy::Time => {
            ||| a.time < b.time
            ||| (a.time == b.time && a.score < b.score)
            ||| (a.time == b.time && a.score == b.score && a.created_at <= b.created_at)
        },
    }
}

fn row_le_exec(sort_by: SlidingPuzzleSortBy, a: &PuzzleRow, b: &PuzzleRow) -> (r: bool)
    ensures
        r == row_le(sort_by, *a, *b),
{
    match sort_by {
        SlidingPuzzleSortBy::Score => {
            a.score < b.score || (a.score == b.score && a.time < b.time) || (a.score == b.score
                && a.time == b.time && a.created_at <= b.created_at)
        },
        SlidingPuzzleSortBy::Time => {
            a.time < b.time || (a.time == b.time && a.score < b.score) || (a.time == b.time
                && a.score == b.score && a.created_at <= b.created_at)
        },
    }
}

/// The players' identities, row by row.
pub open spec fn ids_of(s: Seq<PuzzleRow>) -> Seq<i64> {
    s.map_values(|r: PuzzleRow| r.user_id)
}

/// The distinct players among the rows.
pub open spec fn player_ids(rows: Seq<PuzzleRow>) -> Set<i64> {
    ids_of(rows).to_set()
}

/// Some entry of `page` belongs to this player.
pub open spec fn has_player(page: Seq<PuzzleRow>, uid: i64) -> bool {
    exists|a: int| 0 <= a < page.len() && (#[trigger] page[a]).user_id == uid
}

/// `x` is one of the first `m` deduplicated entries.
pub open spec fn from_best(best: Seq<PuzzleRow>, m: int, x: PuzzleRow) -> bool {
    exists|w: int| 0 <= w < m && #[trigger] best[w] == x
}

/// The index of the entry already kept for this player, if any.
fn find_user(best: &Vec<PuzzleRow>, uid: i64) -> (r: Option<usize>)
    ensures
        match r {
            Some(j) => j < best@.len() && best@[j as int].user_id == uid,
            None => forall|a: int| 0 <= a < best@.len() ==> (#[trigger] best@[a]).user_id != uid,
        },
{
    let mut j: usize = 0;
    while j < best.len()
        invariant
            j <= best@.len(),
            forall|a: int| 0 <= a < j ==> (#[trigger] best@[a]).user_id != uid,
        decreases best@.len() - j,
    {
        if best[j].user_id == uid {
            return Some(j);
        }
        j = j + 1;
    }
    None
}

/// The sliding-puzzle standings over the rows of one bucket: one best
/// entry per player (lowest score, then lowest time, then earliest
/// submission), sorted by the chosen key, truncated to `limit` entries.
/// Returns the page and whether more entries were available.
pub fn puzzle_standings(rows: &Vec<PuzzleRow>, sort_by: SlidingPuzzleSortBy, limit: usize) -> (r: (
    Vec<PuzzleRow>,
    bool,
))
    ensures
        // sorted by the chosen key
        forall|i: int, j: int|
            0 <= i < j < r.0@.len() ==> row_le(sort_by, #[trigger] r.0@[i], #[trigger] r.0@[j]),
        // one entry per player
        forall|i: int, j: int|
            0 <= i < j < r.0@.len() ==> (#[trigger] r.0@[i]).user_id != (#[trigger] r.0@[j]).user_id,
        // every entry is an input row that no other row of its player beats
        forall|i: int|
            0 <= i < r.0@.len() ==> rows@.contains(#[trigger] r.0@[i]) && (forall|k: int|
                0 <= k < rows@.len() && (#[trigger] rows@[k]).user_id == r.0@[i].user_id
                    ==> !better(rows@[k], r.0@[i])),
        // the page holds one entry per distinct player, up to the limit,
        // and the flag says whether players were cut off
        r.0@.len() == (if player_ids(rows@).len() <= limit {
            player_ids(rows@).len() as int
        } else {
            limit as int
        }),
        r.1 <==> player_ids(rows@).len() > limit,
        // an untruncated page covers every player
        !r.1 ==> forall|k: int|
            0 <= k < rows@.len() ==> has_player(r.0@, (#[trigger] rows@[k]).user_id),
{
    // keep the best row per player
    let mut best: Vec<PuzzleRow> = Vec::new();
    let mut i: usize = 0;
    while i < rows.len()
        invariant
            i <= rows@.len(),
            forall|a: int, b: int|
                0 <= a < b < best@.len() ==> (#[trigger] best@[a]).user_id != (
                #[trigger] best@[b]).user_id,
            forall|a: int|
                0 <= a < best@.len() ==> rows@.contains(#[trigger] best@[a]) && (forall|k: int|
                    0 <= k < i && (#[trigger] rows@[k]).user_id == best@[a].user_id ==> !better(
                        rows@[k],
                        best@[a],
                    )),
            forall|k: int|
                0 <= k < i ==> has_player(best@, (#[trigger] rows@[k]).user_id),
        decreases rows@.len() - i,
    {
        let row = rows[i];
        let ghost prevb = best@;
        match find_user(&best, row.user_id) {
            Some(j) => {
                let keep = best[j];
                if row.score < keep.score || (row.score == keep.score && row.time < keep.time) || (
                row.score == keep.score && row.time == keep.time && row.created_at
                    < keep.created_at) {
                    best.set(j, row);
                    proof {
                        assert(rows@.contains(row));
                        assert forall|a: int|
                            0 <= a < best@.len() implies rows@.contains(#[trigger] best@[a]) && (
                        forall|k: int|
                            0 <= k < i + 1 && (#[trigger] rows@[k]).user_id == best@[a].user_id
                                ==> !better(rows@[k], best@[a])) by {
                            if a == j {
                                assert forall|k: int|
                                    0 <= k < i + 1 && (#[trigger] rows@[k]).user_id
                                        == best@[a].user_id implies !better(rows@[k], best@[a]) by {
                                    if k < i {
                                        assert(!better(rows@[k], keep));
                                    }
                                }
                            }
                        }
                    }
                } else {
                    proof {
                        assert(!better(row, keep));
                        assert forall|a: int|
                            0 <= a < best@.len() implies rows@.contains(#[trigger] best@[a]) && (
                        forall|k: int|
                            0 <= k < i + 1 && (#[trigger] rows@[k]).user_id == best@[a].user_id
                                ==> !better(rows@[k], best@[a])) by {
                            if a == j {
                            } else {
                                assert(best@[a].user_id != best@[j as int].user_id);
                            }
                        }
                    }
                }
                proof {
                    assert(best@.len() == prevb.len());
                    assert forall|a: int| 0 <= a < best@.len() implies (#[trigger] best@[a]).user_id
                        == prevb[a].user_id by {
                        if a != j {
                            assert(best@[a] == prevb[a]);
                        }
                    }
                    assert forall|k: int| 0 <= k < i + 1 implies has_player(
                        best@,
                        (#[trigger] rows@[k]).user_id,
                    ) by {
                        if k == i {
                            assert(best@[j as int].user_id == rows@[k].user_id);
                        } else {
                            assert(has_player(prevb, rows@[k].user_id));
                            let w = choose|w: int|
                                0 <= w < prevb.len() && (#[trigger] prevb[w]).user_id == rows@[
                                k].user_id;
                            assert(best@[w].user_id == rows@[k].user_id);
                        }
                    }
                }
            },
            None => {
                let ghost prevb = best@;
                best.push(row);
                proof {
                    assert(rows@.contains(row));
                    assert forall|a: int|
                        0 <= a < best@.len() implies rows@.contains(#[trigger] best@[a]) && (
                    forall|k: int|
                        0 <= k < i + 1 && (#[trigger] rows@[k]).user_id == best@[a].user_id
                            ==> !better(rows@[k], best@[a])) by {
                        if a == prevb.len() {
                            assert(best@[a] == row);
                            assert forall|k: int|
                                0 <= k < i + 1 && (#[trigger] rows@[k]).user_id == best@[a].user_id
                                    implies !better(rows@[k], best@[a]) by {
                                if k < i {
                                    assert(has_player(prevb, rows@[k].user_id));
                                    let w = choose|w: int|
                                        0 <= w < prevb.len() && (#[trigger] prevb[w]).user_id
                                            == rows@[k].user_id;
                                    assert(prevb[w].user_id != row.user_id);
                                }
                            }
                        } else {
                            assert(best@[a] == prevb[a]);
                        }
                    }
                    assert forall|k: int| 0 <= k < i + 1 implies has_player(
                        best@,
                        (#[trigger] rows@[k]).user_id,
                    ) by {
                        if k == i {
                            assert(best@[prevb.len() as int].user_id == rows@[k].user_id);
                        } else {
                            assert(has_player(prevb, rows@[k].user_id));
                            let w = choose|w: int|
                                0 <= w < prevb.len() && (#[trigger] prevb[w]).user_id == rows@[
                                k].user_id;
                            assert(best@[w].user_id == rows@[k].user_id);
                        }
                    }
                }
            },
        }
        i = i + 1;
    }

    // insertion sort on the chosen key
    let mut sorted: Vec<PuzzleRow> = Vec::new();
    let mut i2: usize = 0;
    while i2 < best.len()
        invariant
            i2 <= best@.len(),
            forall|a: int, b: int|
                0 <= a < b < best@.len() ==> (#[trigger] best@[a]).user_id != (
                #[trigger] best@[b]).user_id,
            forall|a: int|
                0 <= a < best@.len() ==> rows@.contains(#[trigger] best@[a]) && (forall|k: int|
                    0 <= k < rows@.len() && (#[trigger] rows@[k]).user_id == best@[a].user_id
                        ==> !better(rows@[k], best@[a])),
            forall|k: int|
                0 <= k < rows@.len() ==> has_player(best@, (#[trigger] rows@[k]).user_id),
            forall|a: int, b: int|
                0 <= a < b < sorted@.len() ==> row_le(
                    sort_by,
                    #[trigger] sorted@[a],
                    #[trigger] sorted@[b],
                ),
            forall|a: int|
                0 <= a < sorted@.len() ==> from_best(best@, i2 as int, #[trigger] sorted@[a]),
            forall|a: int, b: int|
                0 <= a < b < sorted@.len() ==> (#[trigger] sorted@[a]).user_id != (
                #[trigger] sorted@[b]).user_id,
            sorted@.len() == i2,
        decreases best@.len() - i2,
    {
        let row = best[i2];
        let mut k: usize = 0;
        while k < sorted.len() && row_le_exec(sort_by, &sorted[k], &row)
            invariant
                k <= sorted@.len(),
                forall|a: int| 0 <= a < k ==> row_le(sort_by, #[trigger] sorted@[a], row),
            decreases sorted@.len() - k,
        {
            k = k + 1;
        }
        proof {
            if k < sorted@.len() {
                assert(!row_le(sort_by, sorted@[k as int], row));
                lemma_row_total(sort_by, sorted@[k as int], row);
            }
            assert forall|a: int|
                0 <= a < sorted@.len() implies (#[trigger] sorted@[a]).user_id != row.user_id by {
                assert(from_best(best@, i2 as int, sorted@[a]));
                let w = choose|w: int| 0 <= w < i2 && #[trigger] best@[w] == sorted@[a];
                assert(best@[w].user_id != best@[i2 as int].user_id);
            }
        }
        let ghost pre = sorted@;
        sorted.insert(k, row);
        proof {
            assert forall|a: int, b: int|
                0 <= a < b < sorted@.len() implies row_le(
                sort_by,
                #[trigger] sorted@[a],
                #[trigger] sorted@[b],
            ) by {
                let pa = if a < k {
                    a
                } else {
                    a - 1
                };
                let pb = if b < k {
                    b
                } else {
                    b - 1
                };
                if a == k {
                    if b > k {
                        assert(sorted@[b] == pre[pb]);
                        if pb >= k {
                            lemma_row_trans(sort_by, row, pre[k as int], pre[pb]);
                        }
                    }
                } else if b == k {
                    assert(sorted@[a] == pre[pa]);
                } else {
                    assert(sorted@[a] == pre[pa] && sorted@[b] == pre[pb]);
                    if pa < pb {
                    } else {
                        assert(pa == pb);
                        assert(a < k && b > k);
                        lemma_row_trans(sort_by, pre[pa], row, pre[pb]);
                    }
                }
            }
            assert forall|a: int| 0 <= a < sorted@.len() implies from_best(
                best@,
                i2 as int + 1,
                #[trigger] sorted@[a],
            ) by {
                if a == k {
                    assert(best@[i2 as int] == sorted@[a]);
                } else {
                    let pa = if a < k {
                        a
                    } else {
                        a - 1
                    };
                    assert(sorted@[a] == pre[pa]);
                    assert(from_best(best@, i2 as int, pre[pa]));
                    let w = choose|w: int| 0 <= w < i2 && #[trigger] best@[w] == pre[pa];
                    assert(best@[w] == sorted@[a]);
                }
            }
            assert forall|a: int, b: int|
                0 <= a < b < sorted@.len() implies (#[trigger] sorted@[a]).user_id != (
            #[trigger] sorted@[b]).user_id by {
                let pa = if a < k {
                    a
                } else {
                    a - 1
                };
                let pb = if b < k {
                    b
                } else {
                    b - 1
                };
                if a == k {
                    assert(sorted@[b] == pre[pb]);
                    assert(pre[pb].user_id != row.user_id);
                } else if b == k {
                    assert(sorted@[a] == pre[pa]);
                    assert(pre[pa].user_id != row.user_id);
                } else {
                    assert(sorted@[a] == pre[pa] && sorted@[b] == pre[pb]);
                }
                assert(true);
            }
        }
        i2 = i2 + 1;
    }
    proof {
        assert(best@.take(best@.len() as int) =~= best@);
        assert(i2 as int == best@.len());
        lemma_page_counts(rows@, best@, sorted@);
    }
    // truncate to the page size
    let ghost full = sorted@;
    let more = sorted.len() > limit;
    if more {
        sorted.truncate(limit);
        proof {
            assert(sorted@ =~= full.take(limit as int));
            assert forall|a: int| 0 <= a < sorted@.len() implies rows@.contains(
                #[trigger] sorted@[a],
            ) && (forall|kk: int|
                0 <= kk < rows@.len() && (#[trigger] rows@[kk]).user_id == sorted@[a].user_id
                    ==> !better(rows@[kk], sorted@[a])) by {
                assert(sorted@[a] == full[a]);
                assert(from_best(best@, best@.len() as int, full[a]));
                let w = choose|w: int| 0 <= w < best@.len() && #[trigger] best@[w] == full[a];
                assert(rows@.contains(best@[w]));
            }
        }
        (sorted, true)
    } else {
        proof {
            assert forall|a: int| 0 <= a < sorted@.len() implies rows@.contains(
                #[trigger] sorted@[a],
            ) && (forall|kk: int|
                0 <= kk < rows@.len() && (#[trigger] rows@[kk]).user_id == sorted@[a].user_id
                    ==> !better(rows@[kk], sorted@[a])) by {
                assert(from_best(best@, best@.len() as int, sorted@[a]));
                let w = choose|w: int| 0 <= w < best@.len() && #[trigger] best@[w] == sorted@[a];
                assert(rows@.contains(best@[w]));
            }
        }
        (sorted, false)
    }
}

/// The deduplicated vector has exactly one entry per distinct input
/// player, and the sorted vector carries them all: the page length is the
/// number of distinct players.
#[verifier::rlimit(100)]
#[verifier::spinoff_prover]
proof fn lemma_page_counts(rows: Seq<PuzzleRow>, best: Seq<PuzzleRow>, sorted: Seq<PuzzleRow>)
    requires
        // dedup facts
        forall|a: int, b: int|
            0 <= a < b < best.len() ==> (#[trigger] best[a]).user_id != (#[trigger] best[b]).user_id,
        forall|a: int| 0 <= a < best.len() ==> rows.contains(#[trigger] best[a]),
        forall|k: int| 0 <= k < rows.len() ==> has_player(best, (#[trigger] rows[k]).user_id),
        // sort facts
        forall|a: int|
            0 <= a < sorted.len() ==> from_best(best, best.len() as int, #[trigger] sorted[a]),
        forall|a: int, b: int|
            0 <= a < b < sorted.len() ==> (#[trigger] sorted[a]).user_id != (
            #[trigger] sorted[b]).user_id,
        sorted.len() == best.len(),
    ensures
        sorted.len() == player_ids(rows).len(),
        forall|k: int| 0 <= k < rows.len() ==> has_player(sorted, (#[trigger] rows[k]).user_id),
{
    broadcast use vstd::seq_lib::seq_to_set_is_finite;
    broadcast use vstd::set::group_set_axioms;

    let bids = ids_of(best);
    let sids = ids_of(sorted);
    let rids = ids_of(rows);
    assert(bids.no_duplicates()) by {
        assert forall|a: int, b: int| 0 <= a < bids.len() && 0 <= b < bids.len() && a != b implies
            bids[a] != bids[b] by {
            if a < b {
                assert(best[a].user_id != best[b].user_id);
            } else {
                assert(best[b].user_id != best[a].user_id);
            }
        }
    }
    assert(sids.no_duplicates()) by {
        assert forall|a: int, b: int| 0 <= a < sids.len() && 0 <= b < sids.len() && a != b implies
            sids[a] != sids[b] by {
            if a < b {
                assert(sorted[a].user_id != sorted[b].user_id);
            } else {
                assert(sorted[b].user_id != sorted[a].user_id);
            }
        }
    }
    bids.unique_seq_to_set();
    sids.unique_seq_to_set();
    // the deduplicated players are exactly the input players
    assert(bids.to_set().subset_of(rids.to_set())) by {
        assert forall|x: i64| bids.to_set().contains(x) implies rids.to_set().contains(x) by {
            assert(bids.contains(x));
            let a = choose|a: int| 0 <= a < bids.len() && bids[a] == x;
            assert(rows.contains(best[a]));
            let k = choose|k: int| 0 <= k < rows.len() && rows[k] == best[a];
            assert(rids[k] == x);
            assert(rids.contains(x));
        }
    }
    assert(rids.to_set().subset_of(bids.to_set())) by {
        assert forall|x: i64| rids.to_set().contains(x) implies bids.to_set().contains(x) by {
            assert(rids.contains(x));
            let k = choose|k: int| 0 <= k < rids.len() && rids[k] == x;
            let a = choose|a: int|
                0 <= a < best.len() && best[a].user_id == rows[k].user_id;
            assert(bids[a] == x);
            assert(bids.contains(x));
        }
    }
    vstd::set_lib::lemma_len_subset(bids.to_set(), rids.to_set());
    vstd::set_lib::lemma_len_subset(rids.to_set(), bids.to_set());
    // the sorted entries carry every deduplicated player
    assert(sids.to_set().subset_of(bids.to_set())) by {
        assert forall|x: i64| sids.to_set().contains(x) implies bids.to_set().contains(x) by {
            assert(sids.contains(x));
            let a = choose|a: int| 0 <= a < sids.len() && sids[a] == x;
            assert(from_best(best, best.len() as int, sorted[a]));
            let w = choose|w: int| 0 <= w < best.len() && #[trigger] best[w] == sorted[a];
            assert(bids[w] == x);
            assert(bids.contains(x));
        }
    }
    vstd::set_lib::lemma_subset_equality(sids.to_set(), bids.to_set());
    assert forall|k: int| 0 <= k < rows.len() implies exists|i: int|
        0 <= i < sorted.len() && (#[trigger] sorted[i]).user_id == (#[trigger] rows[k]).user_id by {
        let a = choose|a: int| 0 <= a < best.len() && best[a].user_id == rows[k].user_id;
        assert(bids[a] == rows[k].user_id);
        assert(bids.contains(rows[k].user_id));
        assert(bids.to_set().contains(rows[k].user_id));
        assert(sids.to_set().contains(rows[k].user_id));
        assert(sids.contains(rows[k].user_id));
        let i = choose|i: int| 0 <= i < sids.len() && sids[i] == rows[k].user_id;
        assert(sorted[i].user_id == rows[k].user_id);
    }
}

/// The key order is total.
proof fn lemma_row_total(sort_by: SlidingPuzzleSortBy, a: PuzzleRow, b: PuzzleRow)
    ensures
        row_le(sort_by, a, b) || row_le(sort_by, b, a),
{
}

/// The key order chains.
proof fn lemma_row_trans(sort_by: SlidingPuzzleSortBy, a: PuzzleRow, b: PuzzleRow, c: PuzzleRow)
    requires
        row_le(sort_by, a, b),
        row_le(sort_by, b, c),
    ensures
        row_le(sort_by, a, c),
{
}

/// One two-player leaderboard line: the stored user, their wins and
/// losses, and the rating `wins × 17 − losses × 13`; ties are not counted.
#[derive(Debug, Clone, PartialEq, Eq)]
pub struct TTTLeaderboardEntry {
    pub user: User,
    pub wins: i64,
    pub losses: i64,
    pub rating: i128,
}

/// The same line for the meta-board game.
#[derive(Debug, Clone, PartialEq, Eq)]
pub struct UTTTLeaderboardEntry {
    pub user: User,
    pub wins: i64,
    pub losses: i64,
    pub rating: i128,
}

/// The ranking formula: seventeen points per win, minus thirteen per loss.
pub open spec fn spec_rating(wins: int, losses: int) -> int {
    wins * 17 - losses * 13
}

/// Compute a player's rating.
pub fn calculate_rating(wins: i64, losses: i64) -> (r: i128)
    ensures
        r == spec_rating(wins as int, losses as int),
{
    (wins as i128) * 17 - (losses as i128) * 13
}

} // verus!
