use vstd::prelude::*;
use crate::hai::Hai;
use crate::block::{Mentsu, Taatsu, Toitsu, Ukihai};
use crate::count::{count_of, lemma_count_add, lemma_count_range, sorted};
use crate::decomposer::{
    mentsu_ok, first_index, remove_once_spec, split_koutsu, split_sequence, split_spec, split_toitsu,
    split_ukihai, Hourakei, Shape,
};
use crate::special::{
    lemma_fourteen_useful_iff_thirteen_orphans, lemma_seven_toitsu_iff_seven_pairs, seven_pairs,
    thirteen_orphans,
};
use crate::tehai::Tehai;

verus! {

/// How often `h` occurs among the tiles of the mentsu.
pub open spec fn count_in_mentsu(s: Seq<Mentsu>, h: Hai) -> int
    decreases s.len(),
{
    if s.len() == 0 {
        0
    } else {
        count_in_mentsu(s.drop_last(), h) + count_of(s.last().tiles(), h)
    }
}

/// How often `h` occurs among the tiles of the toitsu.
pub open spec fn count_in_toitsu(s: Seq<Toitsu>, h: Hai) -> int
    decreases s.len(),
{
    if s.len() == 0 {
        0
    } else {
        count_in_toitsu(s.drop_last(), h) + if s.last().0 == h { 2int } else { 0int }
    }
}

/// How often `h` occurs among the tiles of the taatsu.
pub open spec fn count_in_taatsu(s: Seq<Taatsu>, h: Hai) -> int
    decreases s.len(),
{
    if s.len() == 0 {
        0
    } else {
        count_in_taatsu(s.drop_last(), h) + (if s.last().0 == h { 1int } else { 0int }) + (if s.last().1
            == h { 1int } else { 0int })
    }
}

/// How often `h` occurs among the ukihai.
pub open spec fn count_in_ukihai(s: Seq<Ukihai>, h: Hai) -> int
    decreases s.len(),
{
    if s.len() == 0 {
        0
    } else {
        count_in_ukihai(s.drop_last(), h) + if s.last().0 == h { 1int } else { 0int }
    }
}

/// How often `h` occurs among the tiles of all blocks of a decomposition.
pub open spec fn count_in_shape(d: Shape, h: Hai) -> int {
    count_in_mentsu(d.mentsu, h) + count_in_toitsu(d.toitsu, h) + count_in_taatsu(d.taatsu, h)
        + count_in_ukihai(d.valid_ukihai, h) + count_in_ukihai(d.invalid_ukihai, h)
}

/// Every shape of `res` holds the tiles of `d` and those of `tiles`, no more and no less.
pub open spec fn all_account(res: Seq<Shape>, d: Shape, tiles: Seq<Hai>) -> bool {
    forall|i: int, h: Hai|
        0 <= i < res.len() ==> #[trigger] count_in_shape(res[i], h) == count_in_shape(d, h)
            + count_of(tiles, h)
}

proof fn lemma_count_one(x: Hai, h: Hai)
    ensures
        count_of(seq![x], h) == if x == h { 1int } else { 0int },
{
    assert(seq![x].drop_last() =~= Seq::<Hai>::empty());
    assert(count_of(Seq::<Hai>::empty(), h) == 0);
}

proof fn lemma_count_three(a: Hai, b: Hai, c: Hai, h: Hai)
    ensures
        count_of(seq![a, b, c], h) == (if a == h { 1int } else { 0int }) + (if b == h { 1int } else { 0int })
            + (if c == h { 1int } else { 0int }),
{
    assert(seq![a, b, c].drop_last() =~= seq![a, b]);
    assert(seq![a, b].drop_last() =~= seq![a]);
    lemma_count_one(a, h);
    assert(count_of(seq![a, b], h) == count_of(seq![a], h) + if b == h { 1int } else { 0int });
    assert(count_of(seq![a, b, c], h) == count_of(seq![a, b], h) + if c == h { 1int } else { 0int });
}

proof fn lemma_count_from(s: Seq<Hai>, k: int, h: Hai)
    requires
        0 <= k <= s.len(),
    ensures
        count_of(s, h) == count_of(s.take(k), h) + count_of(s.subrange(k, s.len() as int), h),
{
    assert(s =~= s.take(k) + s.subrange(k, s.len() as int));
    lemma_count_add(s.take(k), s.subrange(k, s.len() as int), h);
}

proof fn lemma_count_first(s: Seq<Hai>, h: Hai)
    requires
        s.len() >= 1,
    ensures
        count_of(s, h) == count_of(s.drop_first(), h) + if s[0] == h { 1int } else { 0int },
{
    lemma_count_from(s, 1, h);
    assert(s.take(1) =~= seq![s[0]]);
    lemma_count_one(s[0], h);
    assert(s.drop_first() =~= s.subrange(1, s.len() as int));
}

proof fn lemma_first_index_holds(s: Seq<Hai>, x: Hai)
    ensures
        0 <= first_index(s, x) <= s.len(),
        first_index(s, x) < s.len() ==> s[first_index(s, x)] == x,
    decreases s.len(),
{
    if s.len() > 0 && s[0] != x {
        lemma_first_index_holds(s.drop_first(), x);
    }
}

proof fn lemma_count_remove_once(s: Seq<Hai>, x: Hai, h: Hai)
    requires
        first_index(s, x) < s.len(),
    ensures
        count_of(remove_once_spec(s, x), h) == count_of(s, h) - if x == h { 1int } else { 0int },
        remove_once_spec(s, x).len() == s.len() - 1,
{
    lemma_first_index_holds(s, x);
    let i = first_index(s, x);
    let a = s.take(i);
    let b = s.subrange(i + 1, s.len() as int);
    assert(s.remove(i) =~= a + b);
    assert(s =~= a + (seq![x] + b));
    lemma_count_add(a, b, h);
    lemma_count_add(a, seq![x] + b, h);
    lemma_count_add(seq![x], b, h);
    lemma_count_one(x, h);
}

proof fn lemma_push_counts(d: Shape, a: Hai, b: Hai, c: Hai, h: Hai)
    ensures
        count_in_shape(d.push_toitsu(a), h) == count_in_shape(d, h) + if a == h { 2int } else { 0int },
        count_in_shape(d.push_invalid(a), h) == count_in_shape(d, h) + if a == h { 1int } else { 0int },
        count_in_shape(d.push_taatsu(a, b), h) == count_in_shape(d, h) + (if a == h { 1int } else { 0int })
            + (if b == h { 1int } else { 0int }),
        count_in_shape(d.push_mentsu(Mentsu::Koutsu(a)), h) == count_in_shape(d, h) + if a == h {
            3int
        } else {
            0int
        },
        count_in_shape(d.push_mentsu(Mentsu::Juntsu(a, b, c)), h) == count_in_shape(d, h) + (if a
            == h { 1int } else { 0int }) + (if b == h { 1int } else { 0int }) + (if c == h { 1int } else { 0int }),
{
    assert(d.toitsu.push(Toitsu(a)).drop_last() =~= d.toitsu);
    assert(d.invalid_ukihai.push(Ukihai(a)).drop_last() =~= d.invalid_ukihai);
    assert(d.taatsu.push(Taatsu(a, b)).drop_last() =~= d.taatsu);
    assert(d.mentsu.push(Mentsu::Koutsu(a)).drop_last() =~= d.mentsu);
    assert(d.mentsu.push(Mentsu::Juntsu(a, b, c)).drop_last() =~= d.mentsu);
    lemma_count_three(a, a, a, h);
    lemma_count_three(a, b, c, h);
}

proof fn lemma_split_toitsu_accounts(tiles: Seq<Hai>, d: Shape)
    ensures
        all_account(split_toitsu(tiles, d), d, tiles),
    decreases tiles.len(), 0int,
{
    if tiles.len() >= 2 && tiles[1] == tiles[0] {
        let t = tiles[0];
        let rest = tiles.subrange(2, tiles.len() as int);
        lemma_split_accounts(rest, d.push_toitsu(t));
        assert forall|i: int, h: Hai| 0 <= i < split_toitsu(tiles, d).len() implies #[trigger] count_in_shape(
            split_toitsu(tiles, d)[i],
            h,
        ) == count_in_shape(d, h) + count_of(tiles, h) by {
            lemma_push_counts(d, t, t, t, h);
            lemma_count_from(tiles, 2, h);
            assert(tiles.take(2) =~= seq![t] + seq![t]);
            lemma_count_add(seq![t], seq![t], h);
            lemma_count_one(t, h);
        }
    }
}

proof fn lemma_split_koutsu_accounts(tiles: Seq<Hai>, d: Shape)
    ensures
        all_account(split_koutsu(tiles, d), d, tiles),
    decreases tiles.len(), 0int,
{
    if tiles.len() >= 3 && tiles[1] == tiles[0] && tiles[2] == tiles[0] {
        let t = tiles[0];
        let rest = tiles.subrange(3, tiles.len() as int);
        lemma_split_accounts(rest, d.push_mentsu(Mentsu::Koutsu(t)));
        assert forall|i: int, h: Hai| 0 <= i < split_koutsu(tiles, d).len() implies #[trigger] count_in_shape(
            split_koutsu(tiles, d)[i],
            h,
        ) == count_in_shape(d, h) + count_of(tiles, h) by {
            lemma_push_counts(d, t, t, t, h);
            lemma_count_from(tiles, 3, h);
            assert(tiles.take(3) =~= seq![t, t, t]);
            lemma_count_three(t, t, t, h);
        }
    }
}

proof fn lemma_split_ukihai_accounts(tiles: Seq<Hai>, d: Shape)
    ensures
        all_account(split_ukihai(tiles, d), d, tiles),
    decreases tiles.len(), 0int,
{
    if tiles.len() >= 1 {
        let t = tiles[0];
        lemma_split_accounts(tiles.drop_first(), d.push_invalid(t));
        assert forall|i: int, h: Hai| 0 <= i < split_ukihai(tiles, d).len() implies #[trigger] count_in_shape(
            split_ukihai(tiles, d)[i],
            h,
        ) == count_in_shape(d, h) + count_of(tiles, h) by {
            lemma_push_counts(d, t, t, t, h);
            lemma_count_first(tiles, h);
        }
    }
}

proof fn lemma_split_sequence_accounts(tiles: Seq<Hai>, d: Shape)
    ensures
        all_account(split_sequence(tiles, d), d, tiles),
    decreases tiles.len(), 0int,
{
    if tiles.len() >= 2 {
        let t = tiles[0];
        let rest = tiles.drop_first();
        match t.next_spec() {
            Some(t1) => {
                let after_t1 = remove_once_spec(rest, t1);
                if first_index(rest, t1) < rest.len() {
                    let d1 = d.push_taatsu(t, t1);
                    let as_taatsu = split_spec(after_t1, d1);
                    lemma_count_remove_once(rest, t1, t);
                    lemma_split_accounts(after_t1, d1);
                    assert forall|i: int, h: Hai| 0 <= i < as_taatsu.len() implies #[trigger] count_in_shape(
                        as_taatsu[i],
                        h,
                    ) == count_in_shape(d, h) + count_of(tiles, h) by {
                        lemma_push_counts(d, t, t1, t1, h);
                        lemma_count_first(tiles, h);
                        lemma_count_remove_once(rest, t1, h);
                    }
                    assert(all_account(as_taatsu, d, tiles));
                    match t1.next_spec() {
                        Some(t2) => {
                            if first_index(after_t1, t2) < after_t1.len() {
                                let d2 = d.push_mentsu(Mentsu::Juntsu(t, t1, t2));
                                let after_t2 = remove_once_spec(after_t1, t2);
                                let as_juntsu = split_spec(after_t2, d2);
                                lemma_count_remove_once(after_t1, t2, t);
                                lemma_split_accounts(after_t2, d2);
                                assert forall|i: int, h: Hai|
                                    0 <= i < as_juntsu.len() implies #[trigger] count_in_shape(
                                    as_juntsu[i],
                                    h,
                                ) == count_in_shape(d, h) + count_of(tiles, h) by {
                                    lemma_push_counts(d, t, t1, t2, h);
                                    lemma_count_first(tiles, h);
                                    lemma_count_remove_once(rest, t1, h);
                                    lemma_count_remove_once(after_t1, t2, h);
                                }
                                assert(all_account(as_juntsu, d, tiles));
                            }
                        },
                        None => {},
                    }
                } else {
                    match t1.next_spec() {
                        Some(t2) => {
                            if first_index(rest, t2) < rest.len() {
                                let d1 = d.push_taatsu(t, t2);
                                let after_t2 = remove_once_spec(rest, t2);
                                let as_taatsu = split_spec(after_t2, d1);
                                lemma_count_remove_once(rest, t2, t);
                                lemma_split_accounts(after_t2, d1);
                                assert forall|i: int, h: Hai|
                                    0 <= i < as_taatsu.len() implies #[trigger] count_in_shape(
                                    as_taatsu[i],
                                    h,
                                ) == count_in_shape(d, h) + count_of(tiles, h) by {
                                    lemma_push_counts(d, t, t2, t2, h);
                                    lemma_count_first(tiles, h);
                                    lemma_count_remove_once(rest, t2, h);
                                }
                            }
                        },
                        None => {},
                    }
                }
            },
            None => {},
        }
    }
}

/// Every decomposition that the search yields holds, beside the blocks it
/// started from, each tile exactly as often as the tiles it was given.
pub proof fn lemma_split_accounts(tiles: Seq<Hai>, d: Shape)
    ensures
        all_account(split_spec(tiles, d), d, tiles),
    decreases tiles.len(), 1int,
{
    if tiles.len() == 0 {
        assert forall|h: Hai| count_of(tiles, h) == 0 by {}
    } else if tiles.len() == 1 {
        assert forall|h: Hai| #[trigger]
            count_in_shape(d.push_invalid(tiles[0]), h) == count_in_shape(d, h) + count_of(
                tiles,
                h,
            ) by {
            lemma_push_counts(d, tiles[0], tiles[0], tiles[0], h);
            assert(tiles =~= seq![tiles[0]]);
            lemma_count_one(tiles[0], h);
        }
    } else {
        lemma_split_toitsu_accounts(tiles, d);
        lemma_split_koutsu_accounts(tiles, d);
        lemma_split_sequence_accounts(tiles, d);
        lemma_split_ukihai_accounts(tiles, d);
    }
}

/// A mentsute decomposition of shanten -1 parts the juntehai: its mentsu,
/// a third of the juntehai in number and each a koutsu or a juntsu, and its
/// one toitsu hold each tile exactly as often as the hand does, and nothing
/// is left over.
pub proof fn lemma_complete_mentsute_parts_the_hand(tiles: Seq<Hai>, i: int)
    requires
        tiles.len() % 3 == 2,
        0 <= i < split_spec(tiles, Shape::empty(Hourakei::Mentsute)).len(),
        split_spec(tiles, Shape::empty(Hourakei::Mentsute))[i].shanten(tiles.len() as int) == -1,
    ensures
        ({
            let r = split_spec(tiles, Shape::empty(Hourakei::Mentsute))[i];
            &&& r.mentsu.len() == tiles.len() / 3
            &&& r.toitsu.len() == 1
            &&& r.taatsu.len() == 0
            &&& r.valid_ukihai.len() == 0
            &&& r.invalid_ukihai.len() == 0
            &&& parts(tiles, r.mentsu, r.toitsu)
        }),
{
    let e = Shape::empty(Hourakei::Mentsute);
    let r = split_spec(tiles, e)[i];
    let n = tiles.len() as int;
    crate::decomposer::lemma_split_extends(tiles, e);
    assert(crate::decomposer::extends(r, e, n));
    assert(e.all_taatsu_ok());
    assert(r.fits(n));
    crate::shanten::lemma_shanten_complete(r, n);
    lemma_split_accounts(tiles, e);
    assert(e.all_mentsu_ok());
    assert(r.all_mentsu_ok());
    assert forall|h: Hai|
        count_of(tiles, h) == count_in_mentsu(r.mentsu, h) + count_in_toitsu(r.toitsu, h) by {
        assert(count_in_shape(r, h) == count_in_shape(e, h) + count_of(tiles, h));
        assert(r.taatsu =~= Seq::<Taatsu>::empty());
        assert(r.valid_ukihai =~= Seq::<Ukihai>::empty());
        assert(r.invalid_ukihai =~= Seq::<Ukihai>::empty());
        assert(count_in_toitsu(Seq::<Toitsu>::empty(), h) == 0);
    }
}

/// The mentsu `ms` and the toitsu `ps` part the tiles: they hold each tile
/// exactly as often as `tiles` does.
pub open spec fn parts(tiles: Seq<Hai>, ms: Seq<Mentsu>, ps: Seq<Toitsu>) -> bool {
    &&& forall|j: int| 0 <= j < ms.len() ==> mentsu_ok(#[trigger] ms[j])
    &&& tiles.len() == 3 * ms.len() + 2 * ps.len()
    &&& forall|h: Hai| count_of(tiles, h) == count_in_mentsu(ms, h) + count_in_toitsu(ps, h)
}

/// `r` has `m` mentsu and `p` toitsu more than `d`, and nothing else more.
pub open spec fn reaches(r: Shape, d: Shape, m: int, p: int) -> bool {
    &&& r.mentsu.len() == d.mentsu.len() + m
    &&& r.toitsu.len() == d.toitsu.len() + p
    &&& r.taatsu.len() == d.taatsu.len()
    &&& r.valid_ukihai.len() == d.valid_ukihai.len()
    &&& r.invalid_ukihai.len() == d.invalid_ukihai.len()
    &&& r.hourakei == d.hourakei
}

proof fn lemma_count_index(s: Seq<Hai>, h: Hai) -> (i: int)
    requires
        count_of(s, h) >= 1,
    ensures
        0 <= i < s.len(),
        s[i] == h,
    decreases s.len(),
{
    if s.last() == h {
        s.len() - 1
    } else {
        lemma_count_index(s.drop_last(), h)
    }
}

proof fn lemma_count_found(s: Seq<Hai>, h: Hai)
    requires
        count_of(s, h) >= 1,
    ensures
        first_index(s, h) < s.len(),
    decreases s.len(),
{
    lemma_count_range(s, h);
    if s[0] != h {
        lemma_count_first(s, h);
        lemma_count_found(s.drop_first(), h);
    }
}

proof fn lemma_mentsu_remove(ms: Seq<Mentsu>, j: int, h: Hai)
    requires
        0 <= j < ms.len(),
    ensures
        count_in_mentsu(ms, h) == count_in_mentsu(ms.remove(j), h) + count_of(ms[j].tiles(), h),
        count_in_mentsu(ms.remove(j), h) >= 0,
    decreases ms.len(),
{
    lemma_mentsu_nonneg(ms.remove(j), h);
    if j == ms.len() - 1 {
        assert(ms.remove(j) =~= ms.drop_last());
    } else {
        assert(ms.remove(j).drop_last() =~= ms.drop_last().remove(j));
        lemma_mentsu_remove(ms.drop_last(), j, h);
    }
}

proof fn lemma_mentsu_nonneg(ms: Seq<Mentsu>, h: Hai)
    ensures
        count_in_mentsu(ms, h) >= 0,
    decreases ms.len(),
{
    if ms.len() > 0 {
        lemma_mentsu_nonneg(ms.drop_last(), h);
        lemma_count_range(ms.last().tiles(), h);
    }
}

proof fn lemma_toitsu_remove(ps: Seq<Toitsu>, j: int, h: Hai)
    requires
        0 <= j < ps.len(),
    ensures
        count_in_toitsu(ps, h) == count_in_toitsu(ps.remove(j), h) + if ps[j].0 == h {
            2int
        } else {
            0int
        },
        count_in_toitsu(ps.remove(j), h) >= 0,
    decreases ps.len(),
{
    lemma_toitsu_nonneg(ps.remove(j), h);
    if j == ps.len() - 1 {
        assert(ps.remove(j) =~= ps.drop_last());
    } else {
        assert(ps.remove(j).drop_last() =~= ps.drop_last().remove(j));
        lemma_toitsu_remove(ps.drop_last(), j, h);
    }
}

proof fn lemma_toitsu_nonneg(ps: Seq<Toitsu>, h: Hai)
    ensures
        count_in_toitsu(ps, h) >= 0,
    decreases ps.len(),
{
    if ps.len() > 0 {
        lemma_toitsu_nonneg(ps.drop_last(), h);
    }
}

proof fn lemma_toitsu_index(ps: Seq<Toitsu>, h: Hai) -> (j: int)
    requires
        count_in_toitsu(ps, h) >= 1,
    ensures
        0 <= j < ps.len(),
        ps[j].0 == h,
    decreases ps.len(),
{
    if ps.last().0 == h {
        ps.len() - 1
    } else {
        lemma_toitsu_index(ps.drop_last(), h)
    }
}

proof fn lemma_mentsu_index(ms: Seq<Mentsu>, h: Hai) -> (j: int)
    requires
        count_in_mentsu(ms, h) >= 1,
    ensures
        0 <= j < ms.len(),
        count_of(ms[j].tiles(), h) >= 1,
    decreases ms.len(),
{
    if count_of(ms.last().tiles(), h) >= 1 {
        ms.len() - 1
    } else {
        lemma_count_range(ms.last().tiles(), h);
        lemma_mentsu_index(ms.drop_last(), h)
    }
}

/// In an ascending sequence the copies of its first tile stand at its start.
proof fn lemma_sorted_run(s: Seq<Hai>, k: int)
    requires
        sorted(s),
        s.len() >= 1,
        1 <= k,
        count_of(s, s[0]) >= k,
    ensures
        k <= s.len(),
        forall|j: int| 0 <= j < k ==> #[trigger] s[j] == s[0],
    decreases k,
{
    lemma_count_range(s, s[0]);
    if k > 1 {
        lemma_sorted_run(s, k - 1);
        let rest = s.subrange(k - 1, s.len() as int);
        lemma_count_from(s, k - 1, s[0]);
        lemma_count_range(s.take(k - 1), s[0]);
        let i = lemma_count_index(rest, s[0]);
        assert(rest[i] == s[k - 1 + i]);
        assert(s[0].order_key() <= s[k - 1].order_key() <= s[k - 1 + i].order_key());
    }
}

proof fn lemma_sorted_remove_once(s: Seq<Hai>, x: Hai)
    requires
        sorted(s),
    ensures
        sorted(remove_once_spec(s, x)),
{
    lemma_first_index_holds(s, x);
    let i = first_index(s, x);
    if i < s.len() {
        let r = s.remove(i);
        assert forall|a: int, b: int| 0 <= a < b < r.len() implies r[a].order_key()
            <= r[b].order_key() by {
            let a0 = if a < i { a } else { a + 1 };
            let b0 = if b < i { b } else { b + 1 };
            assert(r[a] == s[a0] && r[b] == s[b0]);
        }
    }
}

/// The search finds a decomposition for every way of parting an ascending
/// hand into mentsu and toitsu.
proof fn lemma_split_finds(tiles: Seq<Hai>, d: Shape, ms: Seq<Mentsu>, ps: Seq<Toitsu>) -> (i: int)
    requires
        sorted(tiles),
        parts(tiles, ms, ps),
    ensures
        0 <= i < split_spec(tiles, d).len(),
        reaches(split_spec(tiles, d)[i], d, ms.len() as int, ps.len() as int),
    decreases tiles.len(), 2int,
{
    if tiles.len() == 0 {
        0
    } else {
        lemma_split_finds_step(tiles, d, ms, ps)
    }
}

/// One step of finding: the first tile is taken with the block that holds it.
proof fn lemma_split_finds_step(tiles: Seq<Hai>, d: Shape, ms: Seq<Mentsu>, ps: Seq<Toitsu>) -> (i:
    int)
    requires
        sorted(tiles),
        parts(tiles, ms, ps),
        tiles.len() > 0,
    ensures
        0 <= i < split_spec(tiles, d).len(),
        reaches(split_spec(tiles, d)[i], d, ms.len() as int, ps.len() as int),
    decreases tiles.len(), 1int,
{
    let n = tiles.len() as int;
    let t = tiles[0];
    let rest = tiles.drop_first();
    lemma_count_first(tiles, t);
    lemma_count_range(rest, t);
    lemma_mentsu_nonneg(ms, t);
    lemma_toitsu_nonneg(ps, t);
    let whole = split_spec(tiles, d);
    let part_a = split_toitsu(tiles, d);
    let part_b = split_koutsu(tiles, d);
    let part_c = split_sequence(tiles, d);
    assert(sorted(rest)) by {
        assert forall|a: int, b: int| 0 <= a < b < rest.len() implies rest[a].order_key()
            <= rest[b].order_key() by {
            assert(rest[a] == tiles[a + 1] && rest[b] == tiles[b + 1]);
        }
    }
    if count_in_toitsu(ps, t) >= 1 {
        let j = lemma_toitsu_index(ps, t);
        lemma_toitsu_remove(ps, j, t);
        lemma_sorted_run(tiles, 2);
        let left = tiles.subrange(2, n);
        let ps1 = ps.remove(j);
        assert(sorted(left)) by {
            assert forall|a: int, b: int| 0 <= a < b < left.len() implies left[a].order_key()
                <= left[b].order_key() by {
                assert(left[a] == tiles[a + 2] && left[b] == tiles[b + 2]);
            }
        }
        assert forall|h: Hai| count_of(left, h) == count_in_mentsu(ms, h) + count_in_toitsu(
            ps1,
            h,
        ) by {
            lemma_toitsu_remove(ps, j, h);
            lemma_count_from(tiles, 2, h);
            assert(tiles.take(2) =~= seq![t] + seq![t]);
            lemma_count_add(seq![t], seq![t], h);
            lemma_count_one(t, h);
        }
        let k = lemma_split_finds(left, d.push_toitsu(t), ms, ps1);
        assert(whole[k] == part_a[k]);
        k
    } else {
        lemma_split_finds_mentsu(tiles, d, ms, ps)
    }
}

/// The step of finding where the first tile stands in a mentsu.
proof fn lemma_split_finds_mentsu(tiles: Seq<Hai>, d: Shape, ms: Seq<Mentsu>, ps: Seq<Toitsu>) -> (i:
    int)
    requires
        sorted(tiles),
        parts(tiles, ms, ps),
        tiles.len() > 0,
        count_in_toitsu(ps, tiles[0]) < 1,
    ensures
        0 <= i < split_spec(tiles, d).len(),
        reaches(split_spec(tiles, d)[i], d, ms.len() as int, ps.len() as int),
    decreases tiles.len(), 0int,
{
    let n = tiles.len() as int;
    let t = tiles[0];
    let rest = tiles.drop_first();
    lemma_count_first(tiles, t);
    lemma_count_range(rest, t);
    lemma_mentsu_nonneg(ms, t);
    lemma_toitsu_nonneg(ps, t);
    let whole = split_spec(tiles, d);
    let part_a = split_toitsu(tiles, d);
    let part_b = split_koutsu(tiles, d);
    let part_c = split_sequence(tiles, d);
    assert(sorted(rest)) by {
        assert forall|a: int, b: int| 0 <= a < b < rest.len() implies rest[a].order_key()
            <= rest[b].order_key() by {
            assert(rest[a] == tiles[a + 1] && rest[b] == tiles[b + 1]);
        }
    }
    let j = lemma_mentsu_index(ms, t);
    let ms1 = ms.remove(j);
    lemma_mentsu_remove(ms, j, t);
    assert(mentsu_ok(ms[j]));
    assert forall|q: int| 0 <= q < ms1.len() implies mentsu_ok(#[trigger] ms1[q]) by {
        if q < j {
            assert(ms1[q] == ms[q]);
        } else {
            assert(ms1[q] == ms[q + 1]);
        }
    }
    match ms[j] {
        Mentsu::Koutsu(x) => {
            lemma_count_three(x, x, x, t);
            lemma_sorted_run(tiles, 3);
            let left = tiles.subrange(3, n);
            assert(sorted(left)) by {
                assert forall|a: int, b: int| 0 <= a < b < left.len() implies left[a].order_key()
                    <= left[b].order_key() by {
                    assert(left[a] == tiles[a + 3] && left[b] == tiles[b + 3]);
                }
            }
            assert forall|h: Hai| count_of(left, h) == count_in_mentsu(ms1, h) + count_in_toitsu(
                ps,
                h,
            ) by {
                lemma_mentsu_remove(ms, j, h);
                lemma_count_three(t, t, t, h);
                lemma_count_from(tiles, 3, h);
                assert(tiles.take(3) =~= seq![t, t, t]);
            }
            let k = lemma_split_finds(left, d.push_mentsu(Mentsu::Koutsu(t)), ms1, ps);
            assert(whole[part_a.len() + k] == part_b[k]);
            part_a.len() + k
        },
        Mentsu::Juntsu(a, b, c) => {
            lemma_count_three(a, b, c, t);
            assert forall|h: Hai| h == a || h == b || h == c implies count_of(tiles, h) >= 1 by {
                lemma_mentsu_remove(ms, j, h);
                lemma_count_three(a, b, c, h);
                lemma_toitsu_nonneg(ps, h);
            }
            let ia = lemma_count_index(tiles, a);
            let ib = lemma_count_index(tiles, b);
            assert(t.order_key() <= tiles[ia].order_key());
            assert(t.order_key() <= tiles[ib].order_key());
            assert(t == a);
            lemma_count_first(tiles, b);
            lemma_count_found(rest, b);
            let after_b = remove_once_spec(rest, b);
            lemma_count_remove_once(rest, b, c);
            lemma_count_first(tiles, c);
            lemma_count_found(after_b, c);
            let left = remove_once_spec(after_b, c);
            lemma_count_remove_once(after_b, c, c);
            lemma_sorted_remove_once(rest, b);
            lemma_sorted_remove_once(after_b, c);
            assert forall|h: Hai| count_of(left, h) == count_in_mentsu(ms1, h) + count_in_toitsu(
                ps,
                h,
            ) by {
                lemma_mentsu_remove(ms, j, h);
                lemma_count_three(a, b, c, h);
                lemma_count_first(tiles, h);
                lemma_count_remove_once(rest, b, h);
                lemma_count_remove_once(after_b, c, h);
            }
            let as_taatsu = split_spec(after_b, d.push_taatsu(t, b));
            let k = lemma_split_finds(left, d.push_mentsu(Mentsu::Juntsu(a, b, c)), ms1, ps);
            assert(part_c[as_taatsu.len() + k] == split_spec(
                left,
                d.push_mentsu(Mentsu::Juntsu(a, b, c)),
            )[k]);
            assert(whole[part_a.len() + part_b.len() + as_taatsu.len() + k] == part_c[as_taatsu.len()
                + k]);
            part_a.len() + part_b.len() + as_taatsu.len() + k
        },
        Mentsu::Kantsu(_) => 0,
    }
}

/// Whether some mentsute decomposition of the tiles has shanten -1.
pub open spec fn mentsute_complete(tiles: Seq<Hai>) -> bool {
    exists|i: int|
        0 <= i < split_spec(tiles, Shape::empty(Hourakei::Mentsute)).len() && (#[trigger] split_spec(
            tiles,
            Shape::empty(Hourakei::Mentsute),
        )[i]).shanten(tiles.len() as int) == -1
}

/// Whether the tiles can be parted into mentsu and one toitsu.
pub open spec fn can_be_parted(tiles: Seq<Hai>) -> bool {
    exists|ms: Seq<Mentsu>, pair: Hai| #[trigger] parts(tiles, ms, seq![Toitsu(pair)])
}

/// An ascending hand of `3k+2` juntehai has a mentsute decomposition of
/// shanten -1 exactly when it can be parted into mentsu and one toitsu.
pub proof fn lemma_mentsute_complete_iff_parted(tiles: Seq<Hai>)
    requires
        sorted(tiles),
        tiles.len() % 3 == 2,
    ensures
        mentsute_complete(tiles) <==> can_be_parted(tiles),
{
    let e = Shape::empty(Hourakei::Mentsute);
    let n = tiles.len() as int;
    if mentsute_complete(tiles) {
        let i = choose|i: int|
            0 <= i < split_spec(tiles, e).len() && (#[trigger] split_spec(tiles, e)[i]).shanten(n)
                == -1;
        lemma_complete_mentsute_parts_the_hand(tiles, i);
        let r = split_spec(tiles, e)[i];
        assert(r.toitsu =~= seq![Toitsu(r.toitsu[0].0)]);
        assert(parts(tiles, r.mentsu, seq![Toitsu(r.toitsu[0].0)]));
    }
    if can_be_parted(tiles) {
        let (ms, pair) = choose|ms: Seq<Mentsu>, pair: Hai| #[trigger]
            parts(tiles, ms, seq![Toitsu(pair)]);
        let i = lemma_split_finds(tiles, e, ms, seq![Toitsu(pair)]);
        let r = split_spec(tiles, e)[i];
        crate::decomposer::lemma_split_extends(tiles, e);
        assert(crate::decomposer::extends(r, e, n));
        assert(e.all_taatsu_ok());
        crate::shanten::lemma_shanten_complete(r, n);
    }
}

/// The shanten of a hand of `3k+2` ascending juntehai is -1 exactly when
/// the hand is a winning hand of one of the three forms: its juntehai can be
/// parted into mentsu and one toitsu, or, for 14 juntehai without fuuro,
/// they are seven pairs of different tiles, or the thirteen yaochuupai with
/// one of them twice.
pub proof fn lemma_shanten_of_winning_hands(t: Tehai)
    requires
        sorted(t.juntehai@),
        t.juntehai@.len() % 3 == 2,
    ensures
        t.min_shanten() == -1 <==> (can_be_parted(t.juntehai@) || (t.special_forms() && (
        seven_pairs(t.juntehai@) || thirteen_orphans(t.juntehai@)))),
{
    let tiles = t.juntehai@;
    let n = tiles.len() as int;
    let e = Shape::empty(Hourakei::Mentsute);
    let found = split_spec(tiles, e);
    let c = t.candidates();
    crate::shanten::lemma_shanten_is_sound(t);
    crate::shanten::lemma_forms_looked_at(t);
    t.lemma_candidates_fit();
    lemma_mentsute_complete_iff_parted(tiles);
    if t.special_forms() {
        lemma_seven_toitsu_iff_seven_pairs(tiles);
        lemma_fourteen_useful_iff_thirteen_orphans(tiles);
    }
    if t.min_shanten() == -1 {
        let i = choose|i: int| 0 <= i < c.len() && (#[trigger] c[i]).is_complete(n);
        assert(c[i].fits(n));
        crate::shanten::lemma_shanten_complete(c[i], n);
        if i < found.len() {
            assert(c[i] == found[i]);
            assert(found[i].shanten(n) == -1);
            assert(mentsute_complete(tiles));
        } else {
            assert(t.special_forms());
            assert(i == c.len() - 2 || i == c.len() - 1);
        }
    }
    if can_be_parted(tiles) {
        let i = choose|i: int| 0 <= i < found.len() && (#[trigger] found[i]).shanten(n) == -1;
        assert(c[i] == found[i]);
        assert(c[i].fits(n));
        crate::shanten::lemma_shanten_complete(c[i], n);
        assert(c[i].is_complete(n));
    }
    if t.special_forms() && seven_pairs(tiles) {
        assert(c[c.len() - 2].is_complete(n));
    }
    if t.special_forms() && thirteen_orphans(tiles) {
        assert(c[c.len() - 1].is_complete(n));
    }
}

} // verus!
