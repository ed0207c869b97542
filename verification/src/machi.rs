use vstd::prelude::*;
use crate::hai::{lemma_index_order, Hai, HAI_TYPES};
use crate::block::{Taatsu, Toitsu, Ukihai};
use crate::count::{count_of, sum_of, table_sum, zero_table};
use crate::decomposer::{taatsu_ok, Decomposer, Hourakei, Shape};
use crate::shanten::AnalyzeError;

verus! {

/// Condition of different sutehai.
///
/// # Japanese
/// * sutehai: 捨て牌
/// * machihai: 待ち牌
/// * furiten: 振り聴
///
/// # Member
/// * sutehai: which ukihai will be discarded.
/// * machihai: for each of the 34 tile types, in ascending order, how many
///   copies of it are waited for; 0 where the tile is not waited for.
/// * furiten: if machihai included prevenient sutehai.
#[derive(Clone, Debug)]
pub struct MachiCondition {
    pub sutehai: Hai,
    pub machihai: Vec<u8>,
    pub furiten: bool,
}

/// The tiles that complete a taatsu: the middle one of a gap, both outer
/// ones of two neighbours.
pub open spec fn taatsu_waits(t: Taatsu, h: Hai) -> bool {
    &&& taatsu_ok(t)
    &&& h.category() == t.0.category()
    &&& if t.1.number() == t.0.number() + 2 {
        h.number() == t.0.number() + 1
    } else {
        h.number() == t.0.number() - 1 || h.number() == t.1.number() + 1
    }
}

pub open spec fn any_taatsu_waits(s: Seq<Taatsu>, h: Hai) -> bool
    decreases s.len(),
{
    s.len() > 0 && (any_taatsu_waits(s.drop_last(), h) || taatsu_waits(s.last(), h))
}

/// Some toitsu is made of `h`.
pub open spec fn any_toitsu_is(s: Seq<Toitsu>, h: Hai) -> bool
    decreases s.len(),
{
    s.len() > 0 && (any_toitsu_is(s.drop_last(), h) || s.last().0 == h)
}

/// Some ukihai is `h`.
pub open spec fn any_ukihai_is(s: Seq<Ukihai>, h: Hai) -> bool
    decreases s.len(),
{
    s.len() > 0 && (any_ukihai_is(s.drop_last(), h) || s.last().0 == h)
}

/// What an ukihai `u` that stays in the hand waits for: itself, and, where a
/// taatsu is still wanted (`near`), the tiles at most two ranks away.
pub open spec fn ukihai_waits(u: Hai, sutehai: Hai, near: bool, h: Hai) -> bool {
    u != sutehai && (h == u || (near && u.is_valid_spec() && !(u is Jihai) && h.category()
        == u.category() && h.number() != u.number() && u.number() - 2 <= h.number() <= u.number()
        + 2))
}

pub open spec fn any_ukihai_waits(s: Seq<Ukihai>, sutehai: Hai, near: bool, h: Hai) -> bool
    decreases s.len(),
{
    s.len() > 0 && (any_ukihai_waits(s.drop_last(), sutehai, near, h) || ukihai_waits(
        s.last().0,
        sutehai,
        near,
        h,
    ))
}

/// Two neighbours of the list are equal.
pub open spec fn adjacent_pair(s: Seq<Ukihai>) -> bool
    decreases s.len(),
{
    s.len() >= 2 && (adjacent_pair(s.drop_last()) || s[s.len() - 1] == s[s.len() - 2])
}

/// What a mentsute decomposition waits for after `sutehai` is discarded.
pub open spec fn mentsute_waits(d: Shape, n: int, sutehai: Hai, h: Hai) -> bool {
    let cap = (n + 1) / 3;
    let blocks = d.mentsu.len() + d.taatsu.len();
    &&& blocks <= cap - 1
    &&& blocks + d.toitsu.len() <= cap
    &&& {
        ||| any_taatsu_waits(d.taatsu, h)
        ||| d.toitsu.len() > 1 && any_toitsu_is(d.toitsu, h)
        ||| blocks + d.toitsu.len() < cap && (any_toitsu_is(d.toitsu, h) || any_ukihai_waits(
            d.invalid_ukihai,
            sutehai,
            blocks < cap - 1,
            h,
        ))
    }
}

/// What a chiitoitsu decomposition waits for after `sutehai` is discarded.
pub open spec fn chiitoitsu_waits(d: Shape, sutehai: Hai, h: Hai) -> bool {
    if d.toitsu.len() + d.valid_ukihai.len() >= 7 {
        h != sutehai && any_ukihai_is(d.valid_ukihai, h)
    } else {
        !any_toitsu_is(d.toitsu, h)
    }
}

/// What a kokushimusou decomposition waits for.
pub open spec fn kokushimusou_waits(d: Shape, h: Hai) -> bool {
    h.is_yaochuupai_spec() && (!adjacent_pair(d.valid_ukihai) || !any_ukihai_is(d.valid_ukihai, h))
}

/// Whether a decomposition has `sutehai` to give away.
pub open spec fn concerns(d: Shape, sutehai: Hai) -> bool {
    any_ukihai_is(d.invalid_ukihai, sutehai) || (d.hourakei == Hourakei::Chiitoitsu
        && any_ukihai_is(d.valid_ukihai, sutehai))
}

/// Whether the valid tile `h` brings the decomposition `d` of `n` juntehai
/// forward once `sutehai` is discarded.
pub open spec fn shape_waits(d: Shape, n: int, sutehai: Hai, h: Hai) -> bool {
    concerns(d, sutehai) && match d.hourakei {
        Hourakei::Mentsute => mentsute_waits(d, n, sutehai, h),
        Hourakei::Chiitoitsu => chiitoitsu_waits(d, sutehai, h),
        Hourakei::Kokushimusou => kokushimusou_waits(d, h),
    }
}

/// Whether some of the toitsu is made of `h`.
pub fn toitsu_contains(v: &Vec<Toitsu>, h: Hai) -> (b: bool)
    ensures
        b == any_toitsu_is(v@, h),
{
    let mut b: bool = false;
    let mut i: usize = 0;
    while i < v.len()
        invariant
            i <= v.len(),
            b == any_toitsu_is(v@.take(i as int), h),
        decreases v.len() - i,
    {
        proof {
            assert(v@.take(i + 1).drop_last() =~= v@.take(i as int));
        }
        if v[i].0 == h {
            b = true;
        }
        i += 1;
    }
    proof {
        assert(v@.take(v@.len() as int) =~= v@);
    }
    b
}

/// Whether some of the ukihai is `h`.
pub fn ukihai_contains(v: &Vec<Ukihai>, h: Hai) -> (b: bool)
    ensures
        b == any_ukihai_is(v@, h),
{
    let mut b: bool = false;
    let mut i: usize = 0;
    while i < v.len()
        invariant
            i <= v.len(),
            b == any_ukihai_is(v@.take(i as int), h),
        decreases v.len() - i,
    {
        proof {
            assert(v@.take(i + 1).drop_last() =~= v@.take(i as int));
        }
        if v[i].0 == h {
            b = true;
        }
        i += 1;
    }
    proof {
        assert(v@.take(v@.len() as int) =~= v@);
    }
    b
}

/// Whether two neighbours of the list are equal.
pub fn has_adjacent_pair(v: &Vec<Ukihai>) -> (b: bool)
    ensures
        b == adjacent_pair(v@),
{
    let mut b: bool = false;
    let mut i: usize = 0;
    while i < v.len()
        invariant
            i <= v.len(),
            b == adjacent_pair(v@.take(i as int)),
        decreases v.len() - i,
    {
        proof {
            assert(v@.take(i + 1).drop_last() =~= v@.take(i as int));
        }
        if i >= 1 && v[i] == v[i - 1] {
            b = true;
        }
        i += 1;
    }
    proof {
        assert(v@.take(v@.len() as int) =~= v@);
    }
    b
}

/// Whether the taatsu is of one suit, one or two ranks apart, lower tile first.
pub fn taatsu_is_ok(t: &Taatsu) -> (b: bool)
    ensures
        b == taatsu_ok(*t),
{
    let lo: u8 = t.0.number_of();
    let hi: u8 = t.1.number_of();
    t.0.is_valid() && t.1.is_valid() && !t.0.is_jihai() && t.0.category_of() == t.1.category_of()
        && (hi == lo + 1 || hi == lo + 2)
}

impl MachiCondition {
    /// A table of 34 counts, none above 4.
    pub open spec fn wf(&self) -> bool {
        &&& self.machihai@.len() == HAI_TYPES
        &&& forall|i: int| 0 <= i < HAI_TYPES ==> self.machihai@[i] <= 4
    }

    /// How many copies of the valid tile `h` are waited for.
    pub open spec fn count(&self, h: Hai) -> int {
        self.machihai@[h.index()] as int
    }

    /// The same discard and flag as `before`.
    pub open spec fn same_head(&self, before: &MachiCondition) -> bool {
        self.wf() && self.sutehai == before.sutehai && self.furiten == before.furiten
    }

    /// Get how many hai can waiting for.
    ///
    /// # Japanese
    /// * nokori: 残り
    pub fn nokori(&self) -> (n: usize)
        requires
            self.wf(),
        ensures
            n as int == sum_of(self.machihai@),
            n <= 136,
    {
        table_sum(&self.machihai)
    }

    /// How many copies of `h` are waited for; 0 for a tile that is not valid.
    pub fn remaining(&self, h: &Hai) -> (c: u8)
        requires
            self.wf(),
        ensures
            h.is_valid_spec() ==> c as int == self.count(*h),
            !h.is_valid_spec() ==> c == 0,
            c <= 4,
    {
        if h.is_valid() {
            self.machihai[h.to_index()]
        } else {
            0
        }
    }

    /// The tiles waited for with their counts, in ascending tile order.
    pub fn machihai_list(&self) -> (v: Vec<(Hai, u8)>)
        requires
            self.wf(),
        ensures
            forall|i: int|
                0 <= i < v@.len() ==> (#[trigger] v@[i]).0.is_valid_spec() && 1 <= v@[i].1 <= 4
                    && v@[i].1 as int == self.count(v@[i].0),
            forall|i: int, j: int| 0 <= i < j < v@.len() ==> v@[i].0.index() < v@[j].0.index(),
            forall|h: Hai|
                h.is_valid_spec() && self.count(h) > 0 ==> exists|i: int|
                    0 <= i < v@.len() && (#[trigger] v@[i]).0 == h,
    {
        let mut v: Vec<(Hai, u8)> = Vec::new();
        let mut k: usize = 0;
        while k < HAI_TYPES
            invariant
                k <= HAI_TYPES,
                self.wf(),
                forall|i: int|
                    0 <= i < v@.len() ==> (#[trigger] v@[i]).0.is_valid_spec() && 1 <= v@[i].1 <= 4
                        && v@[i].1 as int == self.count(v@[i].0) && v@[i].0.index() < k,
                forall|i: int, j: int| 0 <= i < j < v@.len() ==> v@[i].0.index() < v@[j].0.index(),
                forall|h: Hai|
                    h.is_valid_spec() && self.count(h) > 0 && h.index() < k ==> exists|i: int|
                        0 <= i < v@.len() && (#[trigger] v@[i]).0 == h,
            decreases HAI_TYPES - k,
        {
            let c: u8 = self.machihai[k];
            let ghost before = v@;
            if c > 0 {
                let hai: Hai = Hai::from_index(k);
                v.push((hai, c));
            }
            proof {
                assert forall|h: Hai|
                    h.is_valid_spec() && self.count(h) > 0 && h.index() < k + 1 implies exists|
                    i: int,
                |
                    0 <= i < v@.len() && (#[trigger] v@[i]).0 == h by {
                    if h.index() < k {
                        let i = choose|i: int| 0 <= i < before.len() && (#[trigger] before[i]).0 == h;
                        assert(v@[i].0 == h);
                    } else {
                        lemma_index_order(h, Hai::at_index(k as int));
                        assert(v@[v@.len() - 1].0 == h);
                    }
                }
            }
            k += 1;
        }
        v
    }

    pub fn new(sutehai: Hai) -> (c: Self)
        ensures
            c.wf(),
            c.sutehai == sutehai,
            !c.furiten,
            forall|i: int| 0 <= i < HAI_TYPES ==> c.machihai@[i] == 0,
    {
        Self { sutehai, machihai: zero_table(), furiten: false }
    }

    /// Wait for all four copies of `h`.
    fn mark(&mut self, h: Hai)
        requires
            old(self).wf(),
            h.is_valid_spec(),
        ensures
            final(self).same_head(old(self)),
            forall|x: Hai|
                x.is_valid_spec() ==> #[trigger] final(self).count(x) == if x == h {
                    4
                } else {
                    old(self).count(x)
                },
    {
        let k: usize = h.to_index();
        self.machihai.set(k, 4);
        proof {
            assert forall|x: Hai| x.is_valid_spec() implies #[trigger] self.count(x) == if x == h {
                4
            } else {
                old(self).count(x)
            } by {
                lemma_index_order(x, h);
            }
        }
    }

    /// Wait for `h` where there is such a tile.
    fn mark_some(&mut self, h: Option<Hai>)
        requires
            old(self).wf(),
            h is Some ==> h->Some_0.is_valid_spec(),
        ensures
            final(self).same_head(old(self)),
            forall|x: Hai|
                x.is_valid_spec() ==> #[trigger] final(self).count(x) == if h == Some(x) {
                    4
                } else {
                    old(self).count(x)
                },
    {
        match h {
            Some(hai) => self.mark(hai),
            None => {},
        }
    }

    /// Wait for the tiles that complete the taatsu of the decomposition.
    pub fn handle_taatsu(&mut self, decomposer: &Decomposer) -> (r: Result<(), AnalyzeError>)
        requires
            old(self).wf(),
        ensures
            final(self).same_head(old(self)),
            r is Err <==> !decomposer@.all_taatsu_ok(),
            r is Err ==> r->Err_0 == AnalyzeError::Logic,
            r is Ok ==> forall|x: Hai|
                x.is_valid_spec() ==> #[trigger] final(self).count(x) == if any_taatsu_waits(
                    decomposer@.taatsu,
                    x,
                ) {
                    4
                } else {
                    old(self).count(x)
                },
    {
        let mut i: usize = 0;
        while i < decomposer.taatsu_vec.len()
            invariant
                i <= decomposer.taatsu_vec.len(),
                self.same_head(old(self)),
                forall|k: int| 0 <= k < i ==> taatsu_ok(#[trigger] decomposer@.taatsu[k]),
                forall|x: Hai|
                    x.is_valid_spec() ==> #[trigger] self.count(x) == if any_taatsu_waits(
                        decomposer@.taatsu.take(i as int),
                        x,
                    ) {
                        4
                    } else {
                        old(self).count(x)
                    },
            decreases decomposer.taatsu_vec.len() - i,
        {
            let taatsu: Taatsu = decomposer.taatsu_vec[i];
            if !taatsu_is_ok(&taatsu) {
                proof {
                    assert(!taatsu_ok(decomposer@.taatsu[i as int]));
                }
                return Err(AnalyzeError::Logic);
            }
            proof {
                assert(decomposer@.taatsu.take(i + 1).drop_last() =~= decomposer@.taatsu.take(
                    i as int,
                ));
            }
            if taatsu.1.number_of() - taatsu.0.number_of() == 2 {
                self.mark_some(taatsu.0.next());
            } else {
                self.mark_some(taatsu.0.previous());
                self.mark_some(taatsu.1.next());
            }
            i += 1;
        }
        proof {
            assert(decomposer@.taatsu.take(decomposer@.taatsu.len() as int) =~= decomposer@.taatsu);
        }
        Ok(())
    }

    /// Wait for the tile of each toitsu.
    fn handle_toitsu(&mut self, toitsu_vec: &Vec<Toitsu>)
        requires
            old(self).wf(),
        ensures
            final(self).same_head(old(self)),
            forall|x: Hai|
                x.is_valid_spec() ==> #[trigger] final(self).count(x) == if any_toitsu_is(
                    toitsu_vec@,
                    x,
                ) {
                    4
                } else {
                    old(self).count(x)
                },
    {
        let mut i: usize = 0;
        while i < toitsu_vec.len()
            invariant
                i <= toitsu_vec.len(),
                self.same_head(old(self)),
                forall|x: Hai|
                    x.is_valid_spec() ==> #[trigger] self.count(x) == if any_toitsu_is(
                        toitsu_vec@.take(i as int),
                        x,
                    ) {
                        4
                    } else {
                        old(self).count(x)
                    },
            decreases toitsu_vec.len() - i,
        {
            proof {
                assert(toitsu_vec@.take(i + 1).drop_last() =~= toitsu_vec@.take(i as int));
            }
            let hai: Hai = toitsu_vec[i].0;
            if hai.is_valid() {
                self.mark(hai);
            }
            i += 1;
        }
        proof {
            assert(toitsu_vec@.take(toitsu_vec@.len() as int) =~= toitsu_vec@);
        }
    }

    /// Wait for what the ukihai other than the sutehai can grow into.
    fn handle_ukihai(&mut self, ukihai_vec: &Vec<Ukihai>, near: bool)
        requires
            old(self).wf(),
        ensures
            final(self).same_head(old(self)),
            forall|x: Hai|
                x.is_valid_spec() ==> #[trigger] final(self).count(x) == if any_ukihai_waits(
                    ukihai_vec@,
                    old(self).sutehai,
                    near,
                    x,
                ) {
                    4
                } else {
                    old(self).count(x)
                },
    {
        let mut i: usize = 0;
        while i < ukihai_vec.len()
            invariant
                i <= ukihai_vec.len(),
                self.same_head(old(self)),
                forall|x: Hai|
                    x.is_valid_spec() ==> #[trigger] self.count(x) == if any_ukihai_waits(
                        ukihai_vec@.take(i as int),
                        old(self).sutehai,
                        near,
                        x,
                    ) {
                        4
                    } else {
                        old(self).count(x)
                    },
            decreases ukihai_vec.len() - i,
        {
            proof {
                assert(ukihai_vec@.take(i + 1).drop_last() =~= ukihai_vec@.take(i as int));
            }
            let hai: Hai = ukihai_vec[i].0;
            if !(hai == self.sutehai) && hai.is_valid() {
                // Ukihai to toitsu
                self.mark(hai);
                // Ukihai to taatsu; jihai cannot become taatsu
                if near && !hai.is_jihai() {
                    match hai.previous() {
                        Some(machi) => {
                            self.mark(machi);
                            self.mark_some(machi.previous());
                        },
                        None => {},
                    }
                    match hai.next() {
                        Some(machi) => {
                            self.mark(machi);
                            self.mark_some(machi.next());
                        },
                        None => {},
                    }
                }
            }
            i += 1;
        }
        proof {
            assert(ukihai_vec@.take(ukihai_vec@.len() as int) =~= ukihai_vec@);
        }
    }

    /// Wait for what a mentsute decomposition needs.
    pub fn handle_mentsute(&mut self, decomposer: &Decomposer, juntehai_number: usize) -> (r: Result<
        (),
        AnalyzeError,
    >)
        requires
            old(self).wf(),
            decomposer@.fits(juntehai_number as int),
            juntehai_number <= 0x3fff_ffff,
        ensures
            final(self).same_head(old(self)),
            r is Ok,
            forall|x: Hai|
                x.is_valid_spec() ==> #[trigger] final(self).count(x) == if mentsute_waits(
                    decomposer@,
                    juntehai_number as int,
                    old(self).sutehai,
                    x,
                ) {
                    4
                } else {
                    old(self).count(x)
                },
    {
        let max_mentsu_toitsu_taatsu: usize = (juntehai_number + 1) / 3;
        let blocks: usize = decomposer.mentsu_vec.len() + decomposer.taatsu_vec.len();
        let toitsu_num: usize = decomposer.toitsu_vec.len();

        // If taatsu overload, no need to analyze.
        if blocks > max_mentsu_toitsu_taatsu - 1 {
            return Ok(());
        }
        // If toitsu overload, no need to analyze.
        if blocks + toitsu_num > max_mentsu_toitsu_taatsu {
            return Ok(());
        }
        // Analyze taatsu.
        match self.handle_taatsu(decomposer) {
            Ok(_) => {},
            Err(e) => {
                return Err(e);
            },
        }
        // If more than 1 toitsu, analyze toitsu.
        if toitsu_num > 1 {
            self.handle_toitsu(&decomposer.toitsu_vec);
        }
        // If taatsu and toitsu not enough.
        if blocks + toitsu_num < max_mentsu_toitsu_taatsu {
            // Toitsu to koutsu
            self.handle_toitsu(&decomposer.toitsu_vec);
            // Ukihai to taatsu or toitsu
            self.handle_ukihai(
                &decomposer.invalid_ukihai_vec,
                blocks < max_mentsu_toitsu_taatsu - 1,
            );
        }
        Ok(())
    }

    /// Wait for what a chiitoitsu decomposition needs.
    pub fn handle_chiitoitsu(&mut self, decomposer: &Decomposer)
        requires
            old(self).wf(),
            decomposer@.fits(14),
        ensures
            final(self).same_head(old(self)),
            forall|x: Hai|
                x.is_valid_spec() ==> #[trigger] final(self).count(x) == if chiitoitsu_waits(
                    decomposer@,
                    old(self).sutehai,
                    x,
                ) {
                    4
                } else {
                    old(self).count(x)
                },
    {
        let enough: bool = decomposer.toitsu_vec.len() + decomposer.valid_ukihai_vec.len() >= 7;
        let mut k: usize = 0;
        while k < HAI_TYPES
            invariant
                k <= HAI_TYPES,
                self.same_head(old(self)),
                enough == (decomposer@.toitsu.len() + decomposer@.valid_ukihai.len() >= 7),
                forall|x: Hai|
                    x.is_valid_spec() ==> #[trigger] self.count(x) == if x.index() < k
                        && chiitoitsu_waits(decomposer@, old(self).sutehai, x) {
                        4
                    } else {
                        old(self).count(x)
                    },
            decreases HAI_TYPES - k,
        {
            let hai: Hai = Hai::from_index(k);
            let ghost before = *self;
            let wanted: bool = if enough {
                // Enough single hai.
                !(hai == self.sutehai) && ukihai_contains(&decomposer.valid_ukihai_vec, hai)
            } else {
                // Need more single hai for shanten; not wait hai that already been pairs.
                !toitsu_contains(&decomposer.toitsu_vec, hai)
            };
            if wanted {
                self.mark(hai);
            }
            proof {
                assert forall|x: Hai| x.is_valid_spec() implies #[trigger] self.count(x) == if x.index()
                    < k + 1 && chiitoitsu_waits(decomposer@, old(self).sutehai, x) {
                    4
                } else {
                    old(self).count(x)
                } by {
                    lemma_index_order(x, hai);
                    assert(before.count(x) == if x.index() < k && chiitoitsu_waits(
                        decomposer@,
                        old(self).sutehai,
                        x,
                    ) {
                        4
                    } else {
                        old(self).count(x)
                    });
                }
            }
            k += 1;
        }
        proof {
            assert forall|x: Hai| x.is_valid_spec() implies x.index() < HAI_TYPES by {
                lemma_index_order(x, x);
            }
        }
    }

    /// Wait for what a kokushimusou decomposition needs.
    pub fn handle_kokushimusou(&mut self, decomposer: &Decomposer)
        requires
            old(self).wf(),
        ensures
            final(self).same_head(old(self)),
            forall|x: Hai|
                x.is_valid_spec() ==> #[trigger] final(self).count(x) == if kokushimusou_waits(
                    decomposer@,
                    x,
                ) {
                    4
                } else {
                    old(self).count(x)
                },
    {
        // Check for yaochuupai pair.
        let yaochuupai_pair: bool = has_adjacent_pair(&decomposer.valid_ukihai_vec);
        let mut k: usize = 0;
        while k < HAI_TYPES
            invariant
                k <= HAI_TYPES,
                self.same_head(old(self)),
                yaochuupai_pair == adjacent_pair(decomposer@.valid_ukihai),
                forall|x: Hai|
                    x.is_valid_spec() ==> #[trigger] self.count(x) == if x.index() < k
                        && kokushimusou_waits(decomposer@, x) {
                        4
                    } else {
                        old(self).count(x)
                    },
            decreases HAI_TYPES - k,
        {
            let hai: Hai = Hai::from_index(k);
            let ghost before = *self;
            // If no yaochuupai pair, waiting for all yaochuupais; else for the missing ones.
            if hai.is_yaochuupai() && (!yaochuupai_pair || !ukihai_contains(
                &decomposer.valid_ukihai_vec,
                hai,
            )) {
                self.mark(hai);
            }
            proof {
                assert forall|x: Hai| x.is_valid_spec() implies #[trigger] self.count(x) == if x.index()
                    < k + 1 && kokushimusou_waits(decomposer@, x) {
                    4
                } else {
                    old(self).count(x)
                } by {
                    lemma_index_order(x, hai);
                    assert(before.count(x) == if x.index() < k && kokushimusou_waits(decomposer@, x) {
                        4
                    } else {
                        old(self).count(x)
                    });
                }
            }
            k += 1;
        }
        proof {
            assert forall|x: Hai| x.is_valid_spec() implies x.index() < HAI_TYPES by {
                lemma_index_order(x, x);
            }
        }
    }

    /// Add what one decomposition waits for, if it has the sutehai to give away.
    pub fn handle(&mut self, decomposer: &Decomposer, juntehai_number: usize) -> (r: Result<
        (),
        AnalyzeError,
    >)
        requires
            old(self).wf(),
            decomposer@.fits(juntehai_number as int),
            juntehai_number <= 0x3fff_ffff,
        ensures
            final(self).same_head(old(self)),
            r is Err <==> decomposer@.shanten(juntehai_number as int) < 0,
            r is Err ==> r->Err_0 == AnalyzeError::Logic && final(self).machihai@ == old(
                self,
            ).machihai@,
            r is Ok ==> forall|x: Hai|
                x.is_valid_spec() ==> #[trigger] final(self).count(x) == if shape_waits(
                    decomposer@,
                    juntehai_number as int,
                    old(self).sutehai,
                    x,
                ) {
                    4
                } else {
                    old(self).count(x)
                },
    {
        if decomposer.shanten(juntehai_number) <= -1 {
            return Err(AnalyzeError::Logic);
        }
        // If invalid_ukihai_vec does not contain sutehai, no need to analyze.
        if !ukihai_contains(&decomposer.invalid_ukihai_vec, self.sutehai) {
            // But Chiitoitsu is a little special.
            if decomposer.hourakei == Hourakei::Chiitoitsu {
                if !ukihai_contains(&decomposer.valid_ukihai_vec, self.sutehai) {
                    return Ok(());
                }
            } else {
                return Ok(());
            }
        }
        match decomposer.hourakei {
            Hourakei::Mentsute => {
                let _ = self.handle_mentsute(decomposer, juntehai_number);
            },
            Hourakei::Chiitoitsu => {
                self.handle_chiitoitsu(decomposer);
            },
            Hourakei::Kokushimusou => {
                self.handle_kokushimusou(decomposer);
            },
        }
        Ok(())
    }

    /// Take from each count the copies that the hand itself holds.
    pub fn finally(&mut self, all: &Vec<Hai>)
        requires
            old(self).wf(),
        ensures
            final(self).same_head(old(self)),
            forall|x: Hai|
                x.is_valid_spec() ==> #[trigger] final(self).count(x) == if old(self).count(x)
                    > count_of(all@, x) {
                    old(self).count(x) - count_of(all@, x)
                } else {
                    0
                },
    {
        let mut i: usize = 0;
        while i < all.len()
            invariant
                i <= all.len(),
                self.same_head(old(self)),
                forall|x: Hai|
                    x.is_valid_spec() ==> #[trigger] self.count(x) == if old(self).count(x) > count_of(
                        all@.take(i as int),
                        x,
                    ) {
                        old(self).count(x) - count_of(all@.take(i as int), x)
                    } else {
                        0
                    },
            decreases all.len() - i,
        {
            proof {
                assert(all@.take(i + 1).drop_last() =~= all@.take(i as int));
            }
            let hai: Hai = all[i];
            let ghost before = *self;
            if hai.is_valid() {
                let k: usize = hai.to_index();
                let c: u8 = self.machihai[k];
                if c > 0 {
                    self.machihai.set(k, c - 1);
                }
            }
            proof {
                assert forall|x: Hai| x.is_valid_spec() implies #[trigger] self.count(x) == if old(
                    self,
                ).count(x) > count_of(all@.take(i + 1), x) {
                    old(self).count(x) - count_of(all@.take(i + 1), x)
                } else {
                    0
                } by {
                    lemma_index_order(x, x);
                    if hai.is_valid_spec() {
                        lemma_index_order(x, hai);
                    }
                    crate::count::lemma_count_range(all@.take(i as int), x);
                    assert(before.count(x) == if old(self).count(x) > count_of(
                        all@.take(i as int),
                        x,
                    ) {
                        old(self).count(x) - count_of(all@.take(i as int), x)
                    } else {
                        0
                    });
                }
            }
            i += 1;
        }
        proof {
            assert(all@.take(all@.len() as int) =~= all@);
        }
    }
}

} // verus!
