//! Hybrid search fusion: Reciprocal Rank Fusion of a lexical and a vector
//! candidate ranking, with the fused order pinned down exactly.
//!
//! Each candidate chunk appearing in either ranked list gets the score
//! `1/(k + r)` summed over the lists it appears in, where `r` is its 1-based
//! rank and `k` is 60. Results are ordered by score descending, ties broken
//! by chunk id ascending.

use vstd::prelude::*;

use vstd::multiset::Multiset;
use vstd::relations::sorted_by;

verus! {

/// The rank-fusion constant.
pub const RRF_K: u64 = 60;

/// A fused candidate: a chunk id with its rank in each list, when present.
#[derive(Debug, Clone, Copy, PartialEq, Eq, Structural)]
pub struct FusedHit {
    /// The candidate chunk.
    pub chunk_id: u64,
    /// 1-based rank in the lexical list, when the chunk appears there.
    pub lex_rank: Option<u64>,
    /// 1-based rank in the vector list, when the chunk appears there.
    pub vec_rank: Option<u64>,
}

impl FusedHit {
    /// Whether the chunk ranked in both candidate lists.
    pub open spec fn spec_is_hybrid(&self) -> bool {
        self.lex_rank is Some && self.vec_rank is Some
    }

    /// Whether the chunk ranked in both candidate lists.
    pub fn is_hybrid(&self) -> (r: bool)
        ensures
            r == self.spec_is_hybrid(),
    {
        match (self.lex_rank, self.vec_rank) {
            (Some(_), Some(_)) => true,
            _ => false,
        }
    }
}

/// The 1-based rank of `id` in a ranked list; `None` when absent.
pub open spec fn rank_in(ids: Seq<u64>, id: u64) -> Option<int>
    decreases ids.len(),
{
    if ids.len() == 0 {
        None
    } else if ids[0] == id {
        Some(1)
    } else {
        match rank_in(ids.skip(1), id) {
            Some(r) => Some(r + 1),
            None => None,
        }
    }
}

/// The fused hit of `id` against the two rankings.
pub open spec fn hit_of(lex: Seq<u64>, vec: Seq<u64>, id: u64) -> FusedHit {
    FusedHit {
        chunk_id: id,
        lex_rank: match rank_in(lex, id) {
            Some(r) => Some(r as u64),
            None => None,
        },
        vec_rank: match rank_in(vec, id) {
            Some(r) => Some(r as u64),
            None => None,
        },
    }
}

/// The numerator of a hit's fused score.
pub open spec fn score_num(h: FusedHit) -> int {
    match (h.lex_rank, h.vec_rank) {
        (Some(l), Some(v)) => (RRF_K + l) + (RRF_K + v),
        (Some(l), None) => 1,
        (None, Some(v)) => 1,
        (None, None) => 0,
    }
}

/// The denominator of a hit's fused score.
pub open spec fn score_den(h: FusedHit) -> int {
    match (h.lex_rank, h.vec_rank) {
        (Some(l), Some(v)) => (RRF_K + l) * (RRF_K + v),
        (Some(l), None) => RRF_K + l,
        (None, Some(v)) => RRF_K + v,
        (None, None) => 1,
    }
}

/// Whether `a` scores strictly higher than `b`.
pub open spec fn score_gt(a: FusedHit, b: FusedHit) -> bool {
    score_num(a) * score_den(b) > score_num(b) * score_den(a)
}

/// Whether `a` and `b` score equally.
pub open spec fn score_eq(a: FusedHit, b: FusedHit) -> bool {
    score_num(a) * score_den(b) == score_num(b) * score_den(a)
}

/// The fused order: higher score first, ties by chunk id ascending.
pub open spec fn fused_before(a: FusedHit, b: FusedHit) -> bool {
    score_gt(a, b) || (score_eq(a, b) && a.chunk_id < b.chunk_id)
}

/// The reflexive fused order used for sortedness.
pub open spec fn fused_leq(a: FusedHit, b: FusedHit) -> bool {
    !fused_before(b, a)
}

/// The fused order as a relation value, for sortedness statements.
pub open spec fn fused_le() -> spec_fn(FusedHit, FusedHit) -> bool {
    |a: FusedHit, b: FusedHit| fused_leq(a, b)
}

/// Score denominators are positive.
pub proof fn lemma_score_den_pos(a: FusedHit)
    ensures
        score_den(a) >= 1,
        score_num(a) >= 0,
{
    match (a.lex_rank, a.vec_rank) {
        (Some(l), Some(v)) => {
            assert((RRF_K + l) * (RRF_K + v) >= 1) by (nonlinear_arith)
                requires
                    RRF_K + l >= 1,
                    RRF_K + v >= 1,
            ;
        },
        _ => {},
    }
}

/// The strict fused order is transitive.
pub proof fn lemma_fused_before_trans(a: FusedHit, b: FusedHit, c: FusedHit)
    requires
        fused_before(a, b),
        fused_before(b, c),
    ensures
        fused_before(a, c),
{
    lemma_score_den_pos(a);
    lemma_score_den_pos(b);
    lemma_score_den_pos(c);
    let na = score_num(a);
    let nb = score_num(b);
    let nc = score_num(c);
    let da = score_den(a);
    let db = score_den(b);
    let dc = score_den(c);
    if score_gt(a, b) && score_gt(b, c) {
        assert(na * dc > nc * da) by (nonlinear_arith)
            requires
                na * db > nb * da,
                nb * dc > nc * db,
                da >= 1,
                db >= 1,
                dc >= 1,
                na >= 0,
                nb >= 0,
                nc >= 0,
        ;
    } else if score_gt(a, b) && score_eq(b, c) {
        assert(na * dc > nc * da) by (nonlinear_arith)
            requires
                na * db > nb * da,
                nb * dc == nc * db,
                da >= 1,
                db >= 1,
                dc >= 1,
                na >= 0,
                nb >= 0,
                nc >= 0,
        ;
    } else if score_eq(a, b) && score_gt(b, c) {
        assert(na * dc > nc * da) by (nonlinear_arith)
            requires
                na * db == nb * da,
                nb * dc > nc * db,
                da >= 1,
                db >= 1,
                dc >= 1,
                na >= 0,
                nb >= 0,
                nc >= 0,
        ;
    } else {
        assert(na * dc == nc * da) by (nonlinear_arith)
            requires
                na * db == nb * da,
                nb * dc == nc * db,
                da >= 1,
                db >= 1,
                dc >= 1,
        ;
    }
}

/// The numerator and denominator of a hit's fused score.
fn score_parts(h: &FusedHit) -> (r: (u128, u128))
    requires
        h.lex_rank matches Some(l) ==> l <= u32::MAX,
        h.vec_rank matches Some(v) ==> v <= u32::MAX,
    ensures
        r.0 == score_num(*h),
        r.1 == score_den(*h),
        r.0 <= 0x3_0000_0000,
        r.1 <= 0x2_0000_0000_0000_0000,
{
    match (h.lex_rank, h.vec_rank) {
        (Some(l), Some(v)) => {
            let x: u128 = (RRF_K + l) as u128;
            let y: u128 = (RRF_K + v) as u128;
            proof {
                assert(x * y <= 0x2_0000_0000_0000_0000) by (nonlinear_arith)
                    requires
                        x <= 0x1_0000_003B,
                        y <= 0x1_0000_003B,
                ;
            }
            (x + y, x * y)
        },
        (Some(l), None) => (1, (RRF_K + l) as u128),
        (None, Some(v)) => (1, (RRF_K + v) as u128),
        (None, None) => (0, 1),
    }
}

/// Compare two hits in the fused order.
pub fn fused_before_exec(a: &FusedHit, b: &FusedHit) -> (r: bool)
    requires
        a.lex_rank matches Some(l) ==> l <= u32::MAX,
        a.vec_rank matches Some(v) ==> v <= u32::MAX,
        b.lex_rank matches Some(l) ==> l <= u32::MAX,
        b.vec_rank matches Some(v) ==> v <= u32::MAX,
    ensures
        r == fused_before(*a, *b),
{
    let (na, da) = score_parts(a);
    let (nb, db) = score_parts(b);
    proof {
        assert(na * db <= 0xffff_ffff_ffff_ffff_ffff_ffff_ffff_ffff) by (nonlinear_arith)
            requires
                na <= 0x3_0000_0000,
                db <= 0x2_0000_0000_0000_0000,
        ;
        assert(nb * da <= 0xffff_ffff_ffff_ffff_ffff_ffff_ffff_ffff) by (nonlinear_arith)
            requires
                nb <= 0x3_0000_0000,
                da <= 0x2_0000_0000_0000_0000,
        ;
    }
    let left = na * db;
    let right = nb * da;
    if left > right {
        true
    } else if left == right {
        a.chunk_id < b.chunk_id
    } else {
        false
    }
}

/// The ids of the vector ranking that the lexical ranking does not hold,
/// in vector order.
pub open spec fn extra_ids(lex: Seq<u64>, vec: Seq<u64>) -> Seq<u64>
    decreases vec.len(),
{
    if vec.len() == 0 {
        Seq::empty()
    } else {
        extra_ids(lex, vec.drop_last()).add(
            if lex.contains(vec.last()) {
                Seq::empty()
            } else {
                seq![vec.last()]
            },
        )
    }
}

/// Every candidate id: the lexical ids, then the vector-only ids.
pub open spec fn candidate_ids(lex: Seq<u64>, vec: Seq<u64>) -> Seq<u64> {
    lex.add(extra_ids(lex, vec))
}

/// Whether `r` holds a hit for the id.
pub open spec fn covers_id(r: Seq<FusedHit>, id: u64) -> bool {
    exists|i: int| 0 <= i < r.len() && (#[trigger] r[i]).chunk_id == id
}

/// Whether `r` holds a hit for every id of either candidate list.
pub open spec fn covers_all(r: Seq<FusedHit>, lex: Seq<u64>, vec: Seq<u64>) -> bool {
    forall|id: u64| lex.contains(id) || vec.contains(id) ==> #[trigger] covers_id(r, id)
}

/// The fused hits of a candidate id list.
pub open spec fn hits_of(lex: Seq<u64>, vec: Seq<u64>, ids: Seq<u64>) -> Seq<FusedHit> {
    Seq::new(ids.len(), |i: int| hit_of(lex, vec, ids[i]))
}

/// Find the 1-based rank of `id` in a ranked list.
pub fn find_rank(ids: &Vec<u64>, id: u64) -> (r: Option<u64>)
    requires
        ids@.len() <= u32::MAX,
    ensures
        r == (match rank_in(ids@, id) {
            Some(k) => Some(k as u64),
            None => None::<u64>,
        }),
        r is Some <==> ids@.contains(id),
{
    let mut i: usize = 0;
    while i < ids.len()
        invariant
            i <= ids@.len(),
            ids@.len() <= u32::MAX,
            forall|j: int| 0 <= j < i ==> ids@[j] != id,
        decreases ids@.len() - i,
    {
        if ids[i] == id {
            proof {
                lemma_rank_char(ids@, id, i as int);
            }
            return Some((i + 1) as u64);
        }
        i = i + 1;
    }
    proof {
        lemma_rank_char(ids@, id, ids@.len() as int);
    }
    None
}

/// When no entry before `i` is the id and the entry at `i`, if any, is, the
/// rank is `i + 1`; past the end there is no rank.
pub proof fn lemma_rank_char(ids: Seq<u64>, id: u64, i: int)
    requires
        0 <= i <= ids.len(),
        forall|j: int| 0 <= j < i ==> ids[j] != id,
        i < ids.len() ==> ids[i] == id,
    ensures
        i < ids.len() ==> rank_in(ids, id) == Some(i + 1),
        i == ids.len() ==> rank_in(ids, id) is None,
        i < ids.len() ==> ids.contains(id),
        i == ids.len() ==> !ids.contains(id),
    decreases ids.len(),
{
    if i == 0 {
        if ids.len() > 0 {
            assert(ids[0] == id);
        }
    } else {
        assert(ids[0] != id);
        assert forall|j: int| 0 <= j < i - 1 implies ids.skip(1)[j] != id by {
            assert(ids.skip(1)[j] == ids[j + 1]);
        }
        if i - 1 < ids.skip(1).len() {
            assert(ids.skip(1)[i - 1] == ids[i]);
        }
        lemma_rank_char(ids.skip(1), id, i - 1);
        if i == ids.len() {
            if ids.contains(id) {
                let w = choose|j: int| 0 <= j < ids.len() && ids[j] == id;
                assert(false);
            }
        }
    }
}

/// A rank exists exactly for the members of the list.
pub proof fn lemma_rank_contains(ids: Seq<u64>, id: u64)
    ensures
        rank_in(ids, id) is Some <==> ids.contains(id),
    decreases ids.len(),
{
    if ids.len() > 0 {
        lemma_rank_contains(ids.skip(1), id);
        if ids[0] != id {
            if ids.contains(id) {
                let w = choose|w: int| 0 <= w < ids.len() && ids[w] == id;
                assert(ids.skip(1)[w - 1] == ids[w]);
            }
            if ids.skip(1).contains(id) {
                let w = choose|w: int| 0 <= w < ids.skip(1).len() && ids.skip(1)[w] == id;
                assert(ids[w + 1] == ids.skip(1)[w]);
            }
        }
    }
}

/// A rank, when present, is within the list's length.
pub proof fn lemma_rank_bound(ids: Seq<u64>, id: u64)
    ensures
        rank_in(ids, id) matches Some(r) ==> 1 <= r <= ids.len(),
    decreases ids.len(),
{
    if ids.len() > 0 && ids[0] != id {
        lemma_rank_bound(ids.skip(1), id);
    }
}

/// Fuse a lexical and a vector candidate ranking by Reciprocal Rank Fusion.
///
/// The result holds one hit for every chunk in either list, with its rank in
/// each list, sorted by fused score descending, ties broken by chunk id
/// ascending.
#[verifier::rlimit(60)]
pub fn rrf_fuse(lexical: &Vec<u64>, vector: &Vec<u64>) -> (r: Vec<FusedHit>)
    requires
        lexical@.len() <= u32::MAX,
        vector@.len() <= u32::MAX,
        forall|i: int, j: int|
            0 <= i < j < lexical@.len() ==> #[trigger] lexical@[i] != #[trigger] lexical@[j],
        forall|i: int, j: int|
            0 <= i < j < vector@.len() ==> #[trigger] vector@[i] != #[trigger] vector@[j],
    ensures
        sorted_by(r@, fused_le()),
        r@.to_multiset() == hits_of(lexical@, vector@, candidate_ids(lexical@, vector@))
            .to_multiset(),
        forall|i: int, j: int|
            0 <= i < j < r@.len() ==> #[trigger] r@[i].chunk_id != #[trigger] r@[j].chunk_id,
        forall|i: int|
            0 <= i < r@.len() ==> #[trigger] r@[i] == hit_of(lexical@, vector@, r@[i].chunk_id),
        r@.len() == candidate_ids(lexical@, vector@).len(),
        forall|i: int|
            0 <= i < r@.len() ==> lexical@.contains((#[trigger] r@[i]).chunk_id)
                || vector@.contains(r@[i].chunk_id),
        covers_all(r@, lexical@, vector@),
{
    broadcast use vstd::seq_lib::group_seq_properties;

    let mut cands: Vec<FusedHit> = Vec::new();
    let mut i: usize = 0;
    while i < lexical.len()
        invariant
            i <= lexical@.len(),
            lexical@.len() <= u32::MAX,
            vector@.len() <= u32::MAX,
            forall|a: int, b: int|
                0 <= a < b < lexical@.len() ==> #[trigger] lexical@[a] != #[trigger] lexical@[b],
            cands@ =~= hits_of(lexical@, vector@, lexical@.take(i as int)),
        decreases lexical@.len() - i,
    {
        let id = lexical[i];
        let vrank = find_rank(vector, id);
        proof {
            lemma_rank_char(lexical@, id, i as int);
            lemma_rank_bound(vector@, id);
        }
        cands.push(FusedHit { chunk_id: id, lex_rank: Some((i + 1) as u64), vec_rank: vrank });
        proof {
            assert(cands@ =~= hits_of(lexical@, vector@, lexical@.take(i as int + 1)));
        }
        i = i + 1;
    }
    proof {
        assert(lexical@.take(lexical@.len() as int) =~= lexical@);
    }
    let mut j: usize = 0;
    while j < vector.len()
        invariant
            j <= vector@.len(),
            lexical@.len() <= u32::MAX,
            vector@.len() <= u32::MAX,
            forall|a: int, b: int|
                0 <= a < b < vector@.len() ==> #[trigger] vector@[a] != #[trigger] vector@[b],
            cands@ =~= hits_of(
                lexical@,
                vector@,
                lexical@.add(extra_ids(lexical@, vector@.take(j as int))),
            ),
        decreases vector@.len() - j,
    {
        let id = vector[j];
        proof {
            assert(vector@.take(j as int + 1).drop_last() =~= vector@.take(j as int));
            assert(vector@.take(j as int + 1).last() == vector@[j as int]);
        }
        match find_rank(lexical, id) {
            Some(_) => {
                proof {
                    assert(extra_ids(lexical@, vector@.take(j as int + 1)) =~= extra_ids(
                        lexical@,
                        vector@.take(j as int),
                    ));
                }
            },
            None => {
                proof {
                    lemma_rank_char(vector@, id, j as int);
                    lemma_rank_bound(vector@, id);
                }
                cands.push(FusedHit { chunk_id: id, lex_rank: None, vec_rank: Some((j + 1) as u64) });
                proof {
                    assert(extra_ids(lexical@, vector@.take(j as int + 1)) =~= extra_ids(
                        lexical@,
                        vector@.take(j as int),
                    ).push(id));
                    assert(cands@ =~= hits_of(
                        lexical@,
                        vector@,
                        lexical@.add(extra_ids(lexical@, vector@.take(j as int + 1))),
                    ));
                }
            },
        }
        j = j + 1;
    }
    proof {
        assert(vector@.take(vector@.len() as int) =~= vector@);
    }
    let ghost gcands = cands@;
    let ghost cids = candidate_ids(lexical@, vector@);
    proof {
        lemma_extra_ids_props(lexical@, vector@);
        assert(gcands.len() == cids.len());
        assert forall|i: int, j: int| 0 <= i < j < gcands.len() implies #[trigger] gcands[
            i
        ].chunk_id != #[trigger] gcands[j].chunk_id by {
            assert(gcands[i].chunk_id == cids[i] && gcands[j].chunk_id == cids[j]);
            let ll = lexical@.len() as int;
            if i < ll && j < ll {
            } else if i < ll && j >= ll {
                assert(cids[j] == extra_ids(lexical@, vector@)[j - ll]);
                assert(!lexical@.contains(cids[j]));
                assert(lexical@.contains(cids[i]));
            } else {
                assert(cids[i] == extra_ids(lexical@, vector@)[i - ll]);
                assert(cids[j] == extra_ids(lexical@, vector@)[j - ll]);
            }
        }
        assert forall|i: int| 0 <= i < gcands.len() implies ((#[trigger] gcands[i]).lex_rank
            matches Some(l) ==> l <= u32::MAX) && (gcands[i].vec_rank matches Some(v) ==> v
            <= u32::MAX) by {
            lemma_rank_bound(lexical@, cids[i]);
            lemma_rank_bound(vector@, cids[i]);
        }
    }
    let sorted = sort_hits(cands);
    proof {
        sorted@.to_multiset_ensures();
        gcands.to_multiset_ensures();
        assert forall|i: int| 0 <= i < sorted@.len() implies #[trigger] sorted@[i] == hit_of(
            lexical@,
            vector@,
            sorted@[i].chunk_id,
        ) by {
            assert(sorted@.contains(sorted@[i]));
            assert(sorted@.to_multiset().count(sorted@[i]) > 0);
            assert(gcands.to_multiset().count(sorted@[i]) > 0);
            assert(gcands.contains(sorted@[i]));
            let w = choose|w: int| 0 <= w < gcands.len() && gcands[w] == sorted@[i];
            assert(gcands[w] == hit_of(lexical@, vector@, cids[w]));
            assert(gcands[w].chunk_id == cids[w]);
        }
        assert(sorted@.len() == sorted@.to_multiset().len());
        assert(gcands.len() == gcands.to_multiset().len());
        assert(sorted@.len() == cids.len());
        assert forall|i: int|
            0 <= i < sorted@.len() implies lexical@.contains((#[trigger] sorted@[i]).chunk_id)
            || vector@.contains(sorted@[i].chunk_id) by {
            assert(sorted@.contains(sorted@[i]));
            assert(sorted@.to_multiset().count(sorted@[i]) > 0);
            assert(gcands.to_multiset().count(sorted@[i]) > 0);
            assert(gcands.contains(sorted@[i]));
            let w = choose|w: int| 0 <= w < gcands.len() && gcands[w] == sorted@[i];
            assert(gcands[w].chunk_id == cids[w]);
            let ll = lexical@.len() as int;
            if w < ll {
                assert(cids[w] == lexical@[w]);
                assert(lexical@.contains(cids[w]));
            } else {
                assert(cids[w] == extra_ids(lexical@, vector@)[w - ll]);
                assert(vector@.contains(cids[w]));
            }
        }
        lemma_fused_covers(sorted@, gcands, cids, lexical@, vector@);
    }
    sorted
}

/// A sequence holding the same hits as the candidates of two rankings
/// covers every id of either ranking.
proof fn lemma_fused_covers(
    sorted: Seq<FusedHit>,
    gcands: Seq<FusedHit>,
    cids: Seq<u64>,
    lex: Seq<u64>,
    vec: Seq<u64>,
)
    requires
        sorted.to_multiset() == gcands.to_multiset(),
        cids == candidate_ids(lex, vec),
        gcands == hits_of(lex, vec, cids),
        forall|i: int, j: int| 0 <= i < j < vec.len() ==> #[trigger] vec[i] != #[trigger] vec[j],
    ensures
        covers_all(sorted, lex, vec),
{
    broadcast use vstd::seq_lib::group_seq_properties;

    sorted.to_multiset_ensures();
    gcands.to_multiset_ensures();
    lemma_extra_ids_props(lex, vec);
    assert forall|id: u64| #[trigger] lex.contains(id) implies covers_id(sorted, id) by {
        lemma_fused_covers_one(sorted, gcands, cids, lex, vec, id);
    }
    assert forall|id: u64| #[trigger] vec.contains(id) implies covers_id(sorted, id) by {
        lemma_fused_covers_one(sorted, gcands, cids, lex, vec, id);
    }
}

/// One covered id.
proof fn lemma_fused_covers_one(
    sorted: Seq<FusedHit>,
    gcands: Seq<FusedHit>,
    cids: Seq<u64>,
    lex: Seq<u64>,
    vec: Seq<u64>,
    id: u64,
)
    requires
        sorted.to_multiset() == gcands.to_multiset(),
        cids == candidate_ids(lex, vec),
        gcands == hits_of(lex, vec, cids),
        forall|i: int, j: int| 0 <= i < j < vec.len() ==> #[trigger] vec[i] != #[trigger] vec[j],
        lex.contains(id) || vec.contains(id),
    ensures
        covers_id(sorted, id),
{
    broadcast use vstd::seq_lib::group_seq_properties;

    sorted.to_multiset_ensures();
    gcands.to_multiset_ensures();
    lemma_extra_ids_props(lex, vec);
    {
        let ll = lex.len() as int;
        let e = extra_ids(lex, vec);
        assert(cids.len() == ll + e.len());
        let w: int = if lex.contains(id) {
            choose|w: int| 0 <= w < lex.len() && lex[w] == id
        } else {
            assert(vec.contains(id) && !lex.contains(id));
            assert(e.contains(id));
            let we = choose|we: int| 0 <= we < e.len() && e[we] == id;
            assert(cids[ll + we] == e[we]);
            ll + we
        };
        assert(0 <= w < cids.len() && cids[w] == id);
        assert(gcands[w] == hit_of(lex, vec, id));
        assert(gcands.contains(gcands[w]));
        assert(gcands.to_multiset().count(gcands[w]) > 0);
        assert(sorted.to_multiset().count(gcands[w]) > 0);
        assert(sorted.contains(gcands[w]));
        let i = choose|i: int| 0 <= i < sorted.len() && sorted[i] == gcands[w];
        assert(0 <= i < sorted.len() && sorted[i].chunk_id == id);
    }
}

/// The vector-only ids are drawn from the vector list, avoid the lexical
/// list, and are pairwise distinct.
proof fn lemma_extra_ids_props(lex: Seq<u64>, vec: Seq<u64>)
    requires
        forall|i: int, j: int| 0 <= i < j < vec.len() ==> #[trigger] vec[i] != #[trigger] vec[j],
    ensures
        forall|i: int|
            0 <= i < extra_ids(lex, vec).len() ==> vec.contains(
                #[trigger] extra_ids(lex, vec)[i],
            ) && !lex.contains(extra_ids(lex, vec)[i]),
        forall|i: int, j: int|
            0 <= i < j < extra_ids(lex, vec).len() ==> #[trigger] extra_ids(lex, vec)[i]
                != #[trigger] extra_ids(lex, vec)[j],
        forall|id: u64|
            vec.contains(id) && !lex.contains(id) ==> #[trigger] extra_ids(lex, vec).contains(id),
    decreases vec.len(),
{
    if vec.len() > 0 {
        assert forall|i: int, j: int|
            0 <= i < j < vec.drop_last().len() implies #[trigger] vec.drop_last()[i]
            != #[trigger] vec.drop_last()[j] by {
            assert(vec.drop_last()[i] == vec[i] && vec.drop_last()[j] == vec[j]);
        }
        lemma_extra_ids_props(lex, vec.drop_last());
        let prev = extra_ids(lex, vec.drop_last());
        let cur = extra_ids(lex, vec);
        if !lex.contains(vec.last()) {
            assert(cur =~= prev.push(vec.last()));
            assert forall|i: int| 0 <= i < cur.len() implies vec.contains(#[trigger] cur[i])
                && !lex.contains(cur[i]) by {
                if i < prev.len() {
                    assert(cur[i] == prev[i]);
                    assert(vec.drop_last().contains(prev[i]));
                    let w = choose|w: int|
                        0 <= w < vec.drop_last().len() && vec.drop_last()[w] == prev[i];
                    assert(vec[w] == prev[i]);
                } else {
                    assert(cur[i] == vec.last());
                    assert(vec[vec.len() - 1] == vec.last());
                }
            }
            assert forall|i: int, j: int| 0 <= i < j < cur.len() implies #[trigger] cur[i]
                != #[trigger] cur[j] by {
                if j < prev.len() {
                } else {
                    assert(cur[j] == vec.last());
                    assert(cur[i] == prev[i]);
                    assert(vec.drop_last().contains(prev[i]));
                    let w = choose|w: int|
                        0 <= w < vec.drop_last().len() && vec.drop_last()[w] == prev[i];
                    assert(vec[w] == prev[i]);
                    assert(vec[w] != vec.last());
                }
            }
            assert forall|id: u64|
                vec.contains(id) && !lex.contains(id) implies #[trigger] cur.contains(id) by {
                let w = choose|w: int| 0 <= w < vec.len() && vec[w] == id;
                if w == vec.len() - 1 {
                    assert(cur[cur.len() - 1] == id);
                } else {
                    assert(vec.drop_last()[w] == vec[w]);
                    assert(vec.drop_last().contains(id));
                    assert(prev.contains(id));
                    let v = choose|v: int| 0 <= v < prev.len() && prev[v] == id;
                    assert(cur[v] == id);
                }
            }
        } else {
            assert(cur =~= prev);
            assert forall|i: int| 0 <= i < cur.len() implies vec.contains(#[trigger] cur[i])
                && !lex.contains(cur[i]) by {
                assert(cur[i] == prev[i]);
                assert(vec.drop_last().contains(prev[i]));
                let w = choose|w: int|
                    0 <= w < vec.drop_last().len() && vec.drop_last()[w] == prev[i];
                assert(vec[w] == prev[i]);
            }
            assert forall|id: u64|
                vec.contains(id) && !lex.contains(id) implies #[trigger] cur.contains(id) by {
                let w = choose|w: int| 0 <= w < vec.len() && vec[w] == id;
                if w == vec.len() - 1 {
                    assert(lex.contains(vec.last()));
                    assert(false);
                } else {
                    assert(vec.drop_last()[w] == vec[w]);
                    assert(vec.drop_last().contains(id));
                    assert(prev.contains(id));
                }
            }
        }
    }
}

/// Whether every hit's ranks are at most the bound.
pub open spec fn ranks_bounded(hs: Seq<FusedHit>) -> bool {
    forall|i: int|
        0 <= i < hs.len() ==> ((#[trigger] hs[i]).lex_rank matches Some(l) ==> l <= u32::MAX)
            && (hs[i].vec_rank matches Some(v) ==> v <= u32::MAX)
}

/// Sort hits into the fused order by selection: repeatedly move the hit that
/// comes first among those remaining.
fn sort_hits(input: Vec<FusedHit>) -> (r: Vec<FusedHit>)
    requires
        ranks_bounded(input@),
        forall|i: int, j: int|
            0 <= i < j < input@.len() ==> #[trigger] input@[i].chunk_id != #[trigger] input@[
                j
            ].chunk_id,
    ensures
        sorted_by(r@, fused_le()),
        r@.to_multiset() == input@.to_multiset(),
        forall|i: int, j: int|
            0 <= i < j < r@.len() ==> #[trigger] r@[i].chunk_id != #[trigger] r@[j].chunk_id,
{
    broadcast use vstd::seq_lib::group_seq_properties;

    broadcast use vstd::multiset::group_multiset_axioms;

    let mut rest = input;
    let mut out: Vec<FusedHit> = Vec::new();
    let ghost orig = rest@.to_multiset();
    proof {
        rest@.to_multiset_ensures();
        out@.to_multiset_ensures();
        assert(out@.to_multiset().add(rest@.to_multiset()) =~= orig);
        assert(rest@.no_duplicates()) by {
            assert forall|i: int, j: int|
                0 <= i < rest@.len() && 0 <= j < rest@.len() && i != j implies rest@[i] != rest@[
                j
            ] by {
                if i < j {
                    assert(rest@[i].chunk_id != rest@[j].chunk_id);
                } else {
                    assert(rest@[j].chunk_id != rest@[i].chunk_id);
                }
            }
        }
        rest@.lemma_multiset_has_no_duplicates();
        assert forall|x: FusedHit| #[trigger] orig.count(x) <= 1 by {
            if orig.count(x) > 0 {
                assert(orig.contains(x));
            }
        }
        assert forall|x: FusedHit, y: FusedHit|
            orig.contains(x) && orig.contains(y) && x != y implies x.chunk_id != y.chunk_id by {
            assert(rest@.contains(x) && rest@.contains(y));
            let i = choose|i: int| 0 <= i < rest@.len() && rest@[i] == x;
            let j = choose|j: int| 0 <= j < rest@.len() && rest@[j] == y;
            if i < j {
                assert(rest@[i].chunk_id != rest@[j].chunk_id);
            } else if j < i {
                assert(rest@[j].chunk_id != rest@[i].chunk_id);
            }
        }
    }
    while rest.len() > 0
        invariant
            out@.to_multiset().add(rest@.to_multiset()) == orig,
            orig == input@.to_multiset(),
            sorted_by(out@, fused_le()),
            forall|a: int, b: int|
                0 <= a < out@.len() && 0 <= b < rest@.len() ==> fused_leq(
                    #[trigger] out@[a],
                    #[trigger] rest@[b],
                ),
            ranks_bounded(rest@),
            forall|x: FusedHit| #[trigger] orig.count(x) <= 1,
            forall|x: FusedHit, y: FusedHit|
                orig.contains(x) && orig.contains(y) && x != y ==> x.chunk_id != y.chunk_id,
            forall|i: int| 0 <= i < out@.len() ==> orig.contains(#[trigger] out@[i]),
            forall|i: int, j: int|
                0 <= i < j < out@.len() ==> #[trigger] out@[i] != #[trigger] out@[j],
        decreases rest@.len(),
    {
        let mut best: usize = 0;
        let mut k: usize = 1;
        while k < rest.len()
            invariant
                0 <= best < k <= rest@.len(),
                rest@.len() > 0,
                ranks_bounded(rest@),
                forall|m: int| 0 <= m < k ==> !fused_before(#[trigger] rest@[m], rest@[best as int]),
            decreases rest@.len() - k,
        {
            if fused_before_exec(&rest[k], &rest[best]) {
                proof {
                    assert forall|m: int| 0 <= m < k implies !fused_before(
                        #[trigger] rest@[m],
                        rest@[k as int],
                    ) by {
                        if fused_before(rest@[m], rest@[k as int]) {
                            lemma_fused_before_trans(
                                rest@[m],
                                rest@[k as int],
                                rest@[best as int],
                            );
                        }
                    }
                }
                best = k;
            }
            k = k + 1;
        }
        let ghost pre_rest = rest@;
        let ghost pre_out = out@;
        let chosen = rest.remove(best);
        out.push(chosen);
        proof {
            pre_rest.to_multiset_ensures();
            pre_out.to_multiset_ensures();
            assert(rest@ == pre_rest.remove(best as int));
            assert(rest@.to_multiset() =~= pre_rest.to_multiset().remove(chosen));
            assert(out@.to_multiset() =~= pre_out.to_multiset().insert(chosen));
            assert(out@.to_multiset().add(rest@.to_multiset()) =~= orig);
            assert(orig.contains(chosen)) by {
                assert(pre_rest.to_multiset().count(chosen) > 0);
            }
            assert forall|a: int| 0 <= a < out@.len() - 1 implies fused_leq(
                #[trigger] out@[a],
                chosen,
            ) by {
                assert(out@[a] == pre_out[a]);
                assert(fused_leq(pre_out[a], pre_rest[best as int]));
            }
            assert forall|x: int, y: int| 0 <= x < y < out@.len() implies #[trigger] fused_le()(
                out@[x],
                out@[y],
            ) by {
                if y < out@.len() - 1 {
                    assert(fused_le()(pre_out[x], pre_out[y]));
                } else {
                    assert(fused_leq(out@[x], chosen));
                    assert(fused_le()(out@[x], out@[y]) == fused_leq(out@[x], out@[y]));
                }
            }
            assert(sorted_by(out@, fused_le()));
            assert forall|a: int, b: int|
                0 <= a < out@.len() && 0 <= b < rest@.len() implies fused_leq(
                #[trigger] out@[a],
                #[trigger] rest@[b],
            ) by {
                let m = if b < best { b } else { b + 1 };
                assert(rest@[b] == pre_rest[m]);
                if a < out@.len() - 1 {
                    assert(fused_leq(pre_out[a], pre_rest[m]));
                } else {
                    assert(out@[a] == chosen);
                    assert(!fused_before(pre_rest[m], pre_rest[best as int]));
                }
            }
            assert forall|b: int| 0 <= b < rest@.len() implies ((#[trigger] rest@[b]).lex_rank
                matches Some(l) ==> l <= u32::MAX) && (rest@[b].vec_rank matches Some(v) ==> v
                <= u32::MAX) by {
                let m = if b < best { b } else { b + 1 };
                assert(rest@[b] == pre_rest[m]);
            }
            assert forall|i: int, j: int| 0 <= i < j < out@.len() implies #[trigger] out@[i]
                != #[trigger] out@[j] by {
                if j == out@.len() - 1 {
                    if out@[i] == chosen {
                        assert(pre_out.contains(chosen));
                        assert(pre_out.to_multiset().count(chosen) > 0);
                        assert(pre_rest.contains(chosen));
                        assert(pre_rest.to_multiset().count(chosen) > 0);
                        assert(orig.count(chosen) == pre_out.to_multiset().count(chosen)
                            + pre_rest.to_multiset().count(chosen));
                        assert(false);
                    }
                }
            }
        }
    }
    proof {
        assert(rest@.to_multiset() =~= Multiset::<FusedHit>::empty());
        assert(out@.to_multiset() =~= orig);
        assert forall|i: int, j: int| 0 <= i < j < out@.len() implies #[trigger] out@[i].chunk_id
            != #[trigger] out@[j].chunk_id by {
            assert(out@[i] != out@[j]);
            assert(orig.contains(out@[i]) && orig.contains(out@[j]));
        }
    }
    out
}

/// A sorted arrangement of fused hits with distinct chunk ids is unique:
/// two orderings of the same hits that are both sorted in the fused order
/// are equal. Fusing in any candidate order therefore yields one result,
/// ties resolved by chunk id ascending.
pub proof fn lemma_fused_order_unique(a: Seq<FusedHit>, b: Seq<FusedHit>)
    requires
        sorted_by(a, fused_le()),
        sorted_by(b, fused_le()),
        a.to_multiset() == b.to_multiset(),
        forall|i: int, j: int|
            0 <= i < j < a.len() ==> #[trigger] a[i].chunk_id != #[trigger] a[j].chunk_id,
    ensures
        a == b,
    decreases a.len(),
{
    broadcast use vstd::seq_lib::group_seq_properties;

    a.to_multiset_ensures();
    b.to_multiset_ensures();
    if a.len() == 0 {
        assert(b.to_multiset().len() == 0);
        assert(a =~= b);
    } else {
        assert(a.to_multiset().count(a[0]) > 0);
        assert(b.to_multiset().count(a[0]) > 0);
        assert(b.contains(a[0]));
        let k = choose|k: int| 0 <= k < b.len() && b[k] == a[0];
        assert(a.contains(b[0])) by {
            assert(b.to_multiset().count(b[0]) > 0);
        }
        let m = choose|m: int| 0 <= m < a.len() && a[m] == b[0];
        if k > 0 {
            assert(fused_le()(b[0], b[k]));
            assert(fused_leq(b[0], b[k]));
        }
        if m > 0 {
            assert(fused_le()(a[0], a[m]));
            assert(fused_leq(a[0], a[m]));
        }
        assert(a[0] == b[0]) by {
            if a[0] != b[0] {
                assert(k != 0 && m != 0);
                assert(fused_leq(b[0], a[0]));
                assert(fused_leq(a[0], b[0]));
                assert(!fused_before(a[0], b[0]) && !fused_before(b[0], a[0]));
                if a[0].chunk_id == b[0].chunk_id {
                    assert(m != 0);
                    assert(a[m].chunk_id == a[0].chunk_id);
                    assert(false);
                } else {
                    assert(!score_gt(a[0], b[0]) && !score_gt(b[0], a[0]));
                    assert(score_eq(a[0], b[0]));
                    assert(false);
                }
            }
        }
        let atail = a.remove(0);
        let btail = b.remove(0);
        assert(atail.to_multiset() =~= a.to_multiset().remove(a[0]));
        assert(btail.to_multiset() =~= b.to_multiset().remove(b[0]));
        assert forall|i: int, j: int| 0 <= i < j < atail.len() implies #[trigger] atail[i].chunk_id
            != #[trigger] atail[j].chunk_id by {
            assert(atail[i] == a[i + 1] && atail[j] == a[j + 1]);
        }
        assert forall|i: int, j: int| 0 <= i < j < atail.len() implies #[trigger] fused_le()(
            atail[i],
            atail[j],
        ) by {
            assert(atail[i] == a[i + 1] && atail[j] == a[j + 1]);
            assert(fused_le()(a[i + 1], a[j + 1]));
        }
        assert forall|i: int, j: int| 0 <= i < j < btail.len() implies #[trigger] fused_le()(
            btail[i],
            btail[j],
        ) by {
            assert(btail[i] == b[i + 1] && btail[j] == b[j + 1]);
            assert(fused_le()(b[i + 1], b[j + 1]));
        }
        lemma_fused_order_unique(atail, btail);
        assert(a =~= seq![a[0]].add(atail));
        assert(b =~= seq![b[0]].add(btail));
    }
}

} // verus!
