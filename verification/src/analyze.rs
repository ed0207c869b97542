use vstd::prelude::*;
use crate::hai::{lemma_index_order, Hai, HAI_TYPES};
use crate::block::Ukihai;
use crate::count::{count_of, lemma_count_range, sum_of};
use crate::decomposer::{shapes, Decomposer, Hourakei, Shape};
use crate::machi::{any_ukihai_is, shape_waits, MachiCondition};
use crate::shanten::AnalyzeError;
use crate::tehai::Tehai;

verus! {

/// Whether a decomposition offers `h` as a sutehai: one of its useless
/// ukihai, or, for a chiitoitsu decomposition without any, one of the others.
pub open spec fn discards(d: Shape, h: Hai) -> bool {
    any_ukihai_is(d.invalid_ukihai, h) || (d.hourakei == Hourakei::Chiitoitsu
        && d.invalid_ukihai.len() == 0 && any_ukihai_is(d.valid_ukihai, h))
}

pub open spec fn any_discards(ds: Seq<Shape>, h: Hai) -> bool
    decreases ds.len(),
{
    ds.len() > 0 && (any_discards(ds.drop_last(), h) || discards(ds.last(), h))
}

pub open spec fn any_shape_waits(ds: Seq<Shape>, n: int, sutehai: Hai, h: Hai) -> bool
    decreases ds.len(),
{
    ds.len() > 0 && (any_shape_waits(ds.drop_last(), n, sutehai, h) || shape_waits(
        ds.last(),
        n,
        sutehai,
        h,
    ))
}

/// How many copies of `h` remain to wait for when some of `ds` waits for it
/// and the hand `all` is in view: four less those in the hand.
pub open spec fn machi_count_of(ds: Seq<Shape>, n: int, all: Seq<Hai>, sutehai: Hai, h: Hai) -> int {
    if any_shape_waits(ds, n, sutehai, h) && count_of(all, h) < 4 {
        4 - count_of(all, h)
    } else {
        0
    }
}

/// `a` stands before `b` in a report: more tiles to wait for, or as many and
/// the smaller sutehai.
pub open spec fn ordered_before(a: MachiCondition, b: MachiCondition) -> bool {
    sum_of(a.machihai@) > sum_of(b.machihai@) || (sum_of(a.machihai@) == sum_of(b.machihai@)
        && a.sutehai.order_key() < b.sutehai.order_key())
}

pub open spec fn report_sorted(r: Seq<MachiCondition>) -> bool {
    forall|i: int, j: int| 0 <= i < j < r.len() ==> ordered_before(r[i], r[j])
}

impl Tehai {
    /// Whether some retained decomposition offers `h` as a sutehai.
    pub open spec fn is_sutehai(&self, h: Hai) -> bool {
        any_discards(self.retained(), h)
    }

    /// How many copies of `h` remain to wait for after `sutehai` is discarded.
    pub open spec fn machi_count(&self, sutehai: Hai, h: Hai) -> int {
        machi_count_of(
            self.retained(),
            self.juntehai@.len() as int,
            self.all_tiles(),
            sutehai,
            h,
        )
    }

    /// The counts of all 34 tile types after `sutehai` is discarded.
    pub open spec fn machi_table(&self, sutehai: Hai) -> Seq<u8> {
        Seq::new(HAI_TYPES as nat, |k: int| self.machi_count(sutehai, Hai::at_index(k)) as u8)
    }

    /// The entry of the report for `c.sutehai`, with at least one tile to wait for.
    pub open spec fn is_entry(&self, c: MachiCondition) -> bool {
        &&& c.wf()
        &&& c.sutehai.is_valid_spec()
        &&& self.is_sutehai(c.sutehai)
        &&& c.machihai@ == self.machi_table(c.sutehai)
        &&& !c.furiten
        &&& sum_of(c.machihai@) > 0
    }

    /// What analyzing the hand gives: an error exactly when the number of
    /// juntehai is not `3k+2`; else the shanten of the hand, which is at
    /// least -1, with no conditions for a complete hand and with the report
    /// of the hand otherwise.
    pub open spec fn analyzes_to(&self, r: Result<(i32, Vec<MachiCondition>), AnalyzeError>) -> bool {
        &&& r is Err <==> self.juntehai@.len() % 3 != 2
        &&& r is Err ==> r->Err_0 == AnalyzeError::HaiNumber(self.juntehai.len())
        &&& r is Ok ==> {
            let (shanten, conditions) = r->Ok_0;
            &&& shanten as int == self.min_shanten()
            &&& shanten >= -1
            &&& shanten == -1 ==> conditions@.len() == 0
            &&& shanten >= 0 ==> self.is_report(conditions@)
        }
    }

    /// The report of a hand that is not complete: one entry for each sutehai
    /// that leaves something to wait for, the entries with the most tiles
    /// first and, among equals, the smaller sutehai first.
    pub open spec fn is_report(&self, r: Seq<MachiCondition>) -> bool {
        &&& forall|i: int| 0 <= i < r.len() ==> self.is_entry(#[trigger] r[i])
        &&& forall|h: Hai|
            h.is_valid_spec() && self.is_sutehai(h) && sum_of(#[trigger] self.machi_table(h)) > 0
                ==> exists|i: int| 0 <= i < r.len() && (#[trigger] r[i]).sutehai == h
        &&& report_sorted(r)
    }
}

/// Flag each valid tile among the ukihai.
fn flag_ukihai(table: &mut Vec<bool>, v: &Vec<Ukihai>)
    requires
        old(table)@.len() == HAI_TYPES,
    ensures
        final(table)@.len() == HAI_TYPES,
        forall|h: Hai|
            h.is_valid_spec() ==> #[trigger] final(table)@[h.index()] == (old(table)@[h.index()]
                || any_ukihai_is(v@, h)),
{
    let mut i: usize = 0;
    while i < v.len()
        invariant
            i <= v.len(),
            table@.len() == HAI_TYPES,
            forall|h: Hai|
                h.is_valid_spec() ==> #[trigger] table@[h.index()] == (old(table)@[h.index()]
                    || any_ukihai_is(v@.take(i as int), h)),
        decreases v.len() - i,
    {
        proof {
            assert(v@.take(i + 1).drop_last() =~= v@.take(i as int));
        }
        let hai: Hai = v[i].0;
        let ghost before = table@;
        if hai.is_valid() {
            table.set(hai.to_index(), true);
        }
        proof {
            assert forall|h: Hai| h.is_valid_spec() implies #[trigger] table@[h.index()] == (old(
                table,
            )@[h.index()] || any_ukihai_is(v@.take(i + 1), h)) by {
                lemma_index_order(h, h);
                if hai.is_valid_spec() {
                    lemma_index_order(h, hai);
                }
                assert(before[h.index()] == (old(table)@[h.index()] || any_ukihai_is(
                    v@.take(i as int),
                    h,
                )));
            }
        }
        i += 1;
    }
    proof {
        assert(v@.take(v@.len() as int) =~= v@);
    }
}

/// For each of the 34 tile types, whether some decomposition offers it as a sutehai.
pub fn sutehai_table(decomposers: &Vec<Decomposer>) -> (table: Vec<bool>)
    ensures
        table@.len() == HAI_TYPES,
        forall|h: Hai|
            h.is_valid_spec() ==> #[trigger] table@[h.index()] == any_discards(
                shapes(decomposers@),
                h,
            ),
{
    let mut table: Vec<bool> = Vec::new();
    let mut k: usize = 0;
    while k < HAI_TYPES
        invariant
            k <= HAI_TYPES,
            table@.len() == k,
            forall|j: int| 0 <= j < k ==> !table@[j],
        decreases HAI_TYPES - k,
    {
        table.push(false);
        k += 1;
    }
    let ghost ds = shapes(decomposers@);
    let mut i: usize = 0;
    proof {
        assert forall|h: Hai| h.is_valid_spec() implies #[trigger] table@[h.index()] == any_discards(
            ds.take(0),
            h,
        ) by {
            lemma_index_order(h, h);
        }
    }
    while i < decomposers.len()
        invariant
            i <= decomposers.len(),
            ds == shapes(decomposers@),
            table@.len() == HAI_TYPES,
            forall|h: Hai|
                h.is_valid_spec() ==> #[trigger] table@[h.index()] == any_discards(
                    ds.take(i as int),
                    h,
                ),
        decreases decomposers.len() - i,
    {
        proof {
            assert(ds.take(i + 1).drop_last() =~= ds.take(i as int));
            assert(ds.take(i + 1).last() == decomposers@[i as int]@);
        }
        let decomposer = &decomposers[i];
        let ghost before = table@;
        flag_ukihai(&mut table, &decomposer.invalid_ukihai_vec);
        let ghost middle = table@;
        // Only chiitoitsu type can discard valid tiles but not ukihai.
        if decomposer.hourakei == Hourakei::Chiitoitsu && decomposer.invalid_ukihai_vec.len() == 0 {
            flag_ukihai(&mut table, &decomposer.valid_ukihai_vec);
        }
        proof {
            assert forall|h: Hai| h.is_valid_spec() implies #[trigger] table@[h.index()]
                == any_discards(ds.take(i + 1), h) by {
                assert(before[h.index()] == any_discards(ds.take(i as int), h));
                assert(middle[h.index()] == (before[h.index()] || any_ukihai_is(
                    decomposer@.invalid_ukihai,
                    h,
                )));
            }
        }
        i += 1;
    }
    proof {
        assert(ds.take(ds.len() as int) =~= ds);
    }
    table
}

/// Put `c` into a sorted report at its place.
fn insert_condition(report: &mut Vec<MachiCondition>, c: MachiCondition)
    requires
        report_sorted(old(report)@),
        forall|i: int| 0 <= i < old(report)@.len() ==> (#[trigger] old(report)@[i]).wf(),
        forall|i: int|
            0 <= i < old(report)@.len() ==> (#[trigger] old(report)@[i]).sutehai.order_key()
                != c.sutehai.order_key(),
        c.wf(),
    ensures
        report_sorted(final(report)@),
        exists|p: int| 0 <= p <= old(report)@.len() && final(report)@ == old(report)@.insert(p, c),
{
    let nokori: usize = c.nokori();
    let mut p: usize = 0;
    let mut found: bool = false;
    while p < report.len() && !found
        invariant
            p <= report.len(),
            found ==> p < report.len() && ordered_before(c, report@[p as int]),
            report@ == old(report)@,
            forall|i: int| 0 <= i < report@.len() ==> (#[trigger] report@[i]).wf(),
            c.wf(),
            nokori as int == sum_of(c.machihai@),
            forall|i: int| 0 <= i < p ==> !ordered_before(c, #[trigger] report@[i]),
        decreases report.len() - p + if found { 0int } else { 1int },
    {
        let other: usize = report[p].nokori();
        if nokori > other || (nokori == other && c.sutehai.lt(&report[p].sutehai)) {
            found = true;
        } else {
            p += 1;
        }
    }
    let ghost before = report@;
    report.insert(p, c);
    proof {
        assert forall|i: int, j: int| 0 <= i < j < report@.len() implies ordered_before(
            report@[i],
            report@[j],
        ) by {
            if j < p {
                assert(report@[i] == before[i] && report@[j] == before[j]);
            } else if j == p {
                assert(report@[i] == before[i]);
                assert(!ordered_before(c, before[i]));
            } else if i < p {
                assert(report@[i] == before[i] && report@[j] == before[j - 1]);
            } else if i == p {
                assert(report@[j] == before[j - 1]);
                assert(ordered_before(c, before[p as int]));
                if j - 1 > p {
                    assert(ordered_before(before[p as int], before[j - 1]));
                }
            } else {
                assert(report@[i] == before[i - 1] && report@[j] == before[j - 1]);
            }
        }
        assert(report@ == before.insert(p as int, c));
    }
}

impl Tehai {
    /// What remains to wait for after `sutehai` is discarded, over the given
    /// decompositions and with the tiles of `all` in view.
    pub fn condition_for(
        sutehai: Hai,
        decomposers: &Vec<Decomposer>,
        juntehai_number: usize,
        all: &Vec<Hai>,
    ) -> (r: Result<MachiCondition, AnalyzeError>)
        requires
            juntehai_number <= 0x3fff_ffff,
            forall|i: int|
                0 <= i < decomposers@.len() ==> (#[trigger] decomposers@[i])@.fits(
                    juntehai_number as int,
                ),
        ensures
            r is Ok <==> forall|i: int|
                0 <= i < decomposers@.len() ==> (#[trigger] decomposers@[i])@.shanten(
                    juntehai_number as int,
                ) >= 0,
            r is Err ==> r->Err_0 == AnalyzeError::Logic,
            r is Ok ==> {
                let c = r->Ok_0;
                &&& c.wf()
                &&& c.sutehai == sutehai
                &&& !c.furiten
                &&& forall|x: Hai|
                    x.is_valid_spec() ==> #[trigger] c.count(x) == machi_count_of(
                        shapes(decomposers@),
                        juntehai_number as int,
                        all@,
                        sutehai,
                        x,
                    )
            },
    {
        let mut condition = MachiCondition::new(sutehai);
        let ghost ds = shapes(decomposers@);
        let ghost n = juntehai_number as int;
        let mut i: usize = 0;
        proof {
            assert forall|x: Hai| x.is_valid_spec() implies #[trigger] condition.count(x) == 0 by {
                lemma_index_order(x, x);
            }
        }
        while i < decomposers.len()
            invariant
                i <= decomposers.len(),
                ds == shapes(decomposers@),
                n == juntehai_number as int,
                juntehai_number <= 0x3fff_ffff,
                forall|k: int| 0 <= k < decomposers@.len() ==> (#[trigger] decomposers@[k])@.fits(n),
                forall|k: int| 0 <= k < i ==> (#[trigger] decomposers@[k])@.shanten(n) >= 0,
                condition.wf(),
                condition.sutehai == sutehai,
                !condition.furiten,
                forall|x: Hai|
                    x.is_valid_spec() ==> #[trigger] condition.count(x) == if any_shape_waits(
                        ds.take(i as int),
                        n,
                        sutehai,
                        x,
                    ) {
                        4int
                    } else {
                        0int
                    },
            decreases decomposers.len() - i,
        {
            proof {
                assert(ds.take(i + 1).drop_last() =~= ds.take(i as int));
                assert(ds.take(i + 1).last() == decomposers@[i as int]@);
            }
            let ghost before = condition;
            match condition.handle(&decomposers[i], juntehai_number) {
                Ok(_) => {},
                Err(e) => {
                    return Err(e);
                },
            }
            proof {
                assert forall|x: Hai| x.is_valid_spec() implies #[trigger] condition.count(x)
                    == if any_shape_waits(ds.take(i + 1), n, sutehai, x) {
                    4int
                } else {
                    0int
                } by {
                    assert(before.count(x) == if any_shape_waits(ds.take(i as int), n, sutehai, x) {
                        4int
                    } else {
                        0int
                    });
                }
            }
            i += 1;
        }
        proof {
            assert(ds.take(ds.len() as int) =~= ds);
        }
        let ghost marked = condition;
        condition.finally(all);
        proof {
            assert forall|x: Hai| x.is_valid_spec() implies #[trigger] condition.count(x)
                == machi_count_of(ds, n, all@, sutehai, x) by {
                lemma_count_range(all@, x);
                assert(marked.count(x) == if any_shape_waits(ds, n, sutehai, x) {
                    4int
                } else {
                    0int
                });
            }
        }
        Ok(condition)
    }

    /// Analyze conditions of sutehai and machihai.
    ///
    /// # Return
    /// * i32: the number of shanten.
    /// * Vec<MachiCondition>: all conditions of different sutehai.
    pub fn analyze(&self) -> (r: Result<(i32, Vec<MachiCondition>), AnalyzeError>)
        requires
            self.wf(),
        ensures
            self.analyzes_to(r),
    {
        let (shanten, decomposers) = match self.decompose() {
            Ok(found) => found,
            Err(e) => {
                return Err(e);
            },
        };
        let mut conditions_vec: Vec<MachiCondition> = Vec::new();
        if shanten < -1 {
            return Err(AnalyzeError::Shanten);
        }
        // Already complete
        if shanten == -1 {
            return Ok((shanten, conditions_vec));
        }
        let n: usize = self.juntehai.len();
        let all: Vec<Hai> = self.all_hai();
        let sutehai_set: Vec<bool> = sutehai_table(&decomposers);
        let mut k: usize = 0;
        while k < HAI_TYPES
            invariant
                k <= HAI_TYPES,
                n == self.juntehai@.len(),
                n <= 0x3fff_ffff,
                all@ == self.all_tiles(),
                shapes(decomposers@) == self.retained(),
                sutehai_set@.len() == HAI_TYPES,
                forall|h: Hai|
                    h.is_valid_spec() ==> #[trigger] sutehai_set@[h.index()] == self.is_sutehai(h),
                forall|i: int|
                    0 <= i < decomposers@.len() ==> (#[trigger] decomposers@[i])@.fits(n as int)
                        && decomposers@[i]@.shanten(n as int) >= 0,
                report_sorted(conditions_vec@),
                forall|i: int|
                    0 <= i < conditions_vec@.len() ==> self.is_entry(#[trigger] conditions_vec@[i])
                        && conditions_vec@[i].sutehai.index() < k,
                forall|h: Hai|
                    h.is_valid_spec() && h.index() < k && self.is_sutehai(h) && sum_of(
                        #[trigger] self.machi_table(h),
                    ) > 0 ==> exists|i: int|
                        0 <= i < conditions_vec@.len() && (#[trigger] conditions_vec@[i]).sutehai == h,
            decreases HAI_TYPES - k,
        {
            let ghost before = conditions_vec@;
            let sutehai: Hai = Hai::from_index(k);
            let mut added: bool = false;
            if sutehai_set[k] {
                let condition = match Tehai::condition_for(sutehai, &decomposers, n, &all) {
                    Ok(c) => c,
                    Err(e) => {
                        return Err(e);
                    },
                };
                proof {
                    assert forall|j: int| 0 <= j < HAI_TYPES implies condition.machihai@[j]
                        == self.machi_table(sutehai)[j] by {
                        let x = Hai::at_index(j);
                        assert(x.is_valid_spec() && x.index() == j);
                        assert(condition.count(x) == self.machi_count(sutehai, x));
                    }
                    assert(condition.machihai@ =~= self.machi_table(sutehai));
                }
                if condition.nokori() > 0 {
                    proof {
                        assert forall|i: int| 0 <= i < conditions_vec@.len() implies (
                        #[trigger] conditions_vec@[i]).sutehai.order_key()
                            != condition.sutehai.order_key() by {
                            lemma_index_order(conditions_vec@[i].sutehai, sutehai);
                        }
                    }
                    insert_condition(&mut conditions_vec, condition);
                    proof {
                        let p = choose|p: int|
                            0 <= p <= before.len() && conditions_vec@ == before.insert(p, condition);
                        assert forall|i: int| 0 <= i < conditions_vec@.len() implies self.is_entry(
                            #[trigger] conditions_vec@[i],
                        ) && conditions_vec@[i].sutehai.index() < k + 1 by {
                            if i < p {
                                assert(conditions_vec@[i] == before[i]);
                            } else if i > p {
                                assert(conditions_vec@[i] == before[i - 1]);
                            }
                        }
                        assert forall|h: Hai|
                            h.is_valid_spec() && h.index() < k + 1 && self.is_sutehai(h) && sum_of(
                                #[trigger] self.machi_table(h),
                            ) > 0 implies exists|i: int|
                            0 <= i < conditions_vec@.len() && (#[trigger] conditions_vec@[i]).sutehai
                                == h by {
                            if h.index() < k {
                                let i = choose|i: int|
                                    0 <= i < before.len() && (#[trigger] before[i]).sutehai == h;
                                if i < p {
                                    assert(conditions_vec@[i].sutehai == h);
                                } else {
                                    assert(conditions_vec@[i + 1].sutehai == h);
                                }
                            } else {
                                lemma_index_order(h, sutehai);
                                assert(conditions_vec@[p].sutehai == h);
                            }
                        }
                    }
                    added = true;
                }
            }
            proof {
                if !added {
                    assert forall|h: Hai|
                        h.is_valid_spec() && h.index() < k + 1 && self.is_sutehai(h) && sum_of(
                            #[trigger] self.machi_table(h),
                        ) > 0 implies exists|i: int|
                        0 <= i < conditions_vec@.len() && (#[trigger] conditions_vec@[i]).sutehai
                            == h by {
                        if h.index() >= k {
                            lemma_index_order(h, sutehai);
                        }
                    }
                }
            }
            k += 1;
        }
        proof {
            assert forall|h: Hai| h.is_valid_spec() implies h.index() < HAI_TYPES by {
                lemma_index_order(h, h);
            }
        }
        Ok((shanten, conditions_vec))
    }
}

/// What remains of a tile to wait for is nothing, or between one and four
/// copies; it is nothing for a tile of which the hand holds four.
pub proof fn lemma_machi_count_range(t: Tehai, sutehai: Hai, h: Hai)
    ensures
        t.machi_count(sutehai, h) == 0 || 1 <= t.machi_count(sutehai, h) <= 4,
        count_of(t.all_tiles(), h) >= 4 ==> t.machi_count(sutehai, h) == 0,
{
    lemma_count_range(t.all_tiles(), h);
}

/// In a report every entry leaves at least one tile to wait for, no tile is
/// waited for more than four times, and a tile of which the hand holds four
/// is waited for in no entry.
pub proof fn lemma_report_counts(t: Tehai, r: Seq<MachiCondition>, i: int, h: Hai)
    requires
        t.is_report(r),
        0 <= i < r.len(),
        h.is_valid_spec(),
    ensures
        sum_of(r[i].machihai@) >= 1,
        r[i].count(h) == t.machi_count(r[i].sutehai, h),
        r[i].count(h) == 0 || 1 <= r[i].count(h) <= 4,
        count_of(t.all_tiles(), h) >= 4 ==> r[i].count(h) == 0,
{
    assert(t.is_entry(r[i]));
    lemma_index_order(h, h);
    lemma_machi_count_range(t, r[i].sutehai, h);
    assert(r[i].machihai@[h.index()] == t.machi_table(r[i].sutehai)[h.index()]);
}

/// Two entries of a report for the same sutehai hold the same.
proof fn lemma_same_entry(t: Tehai, a: MachiCondition, b: MachiCondition)
    requires
        t.is_entry(a),
        t.is_entry(b),
        a.sutehai == b.sutehai,
    ensures
        a.machihai@ == b.machihai@,
        a.furiten == b.furiten,
        !ordered_before(a, b),
        !ordered_before(b, a),
{
}

/// The entry of `r1` at `i` stands in `r2` at `i` or later.
proof fn lemma_report_position(t: Tehai, r1: Seq<MachiCondition>, r2: Seq<MachiCondition>, i: int) -> (j: int)
    requires
        t.is_report(r1),
        t.is_report(r2),
        0 <= i < r1.len(),
    ensures
        i <= j < r2.len(),
        r2[j].sutehai == r1[i].sutehai,
    decreases i,
{
    assert(t.is_entry(r1[i]));
    let h = r1[i].sutehai;
    assert(sum_of(t.machi_table(h)) > 0);
    let j = choose|j: int| 0 <= j < r2.len() && (#[trigger] r2[j]).sutehai == h;
    assert(t.is_entry(r2[j]));
    lemma_same_entry(t, r1[i], r2[j]);
    if i > 0 {
        let jp = lemma_report_position(t, r1, r2, i - 1);
        assert(t.is_entry(r1[i - 1]));
        assert(t.is_entry(r2[jp]));
        lemma_same_entry(t, r1[i - 1], r2[jp]);
        assert(ordered_before(r1[i - 1], r1[i]));
        assert(ordered_before(r2[jp], r2[j]));
        if j < jp {
            assert(ordered_before(r2[j], r2[jp]));
        }
        assert(jp < j);
    }
    j
}

/// A hand has one report: two sequences that both are its report agree in
/// length and, place by place, in what they hold.
pub proof fn lemma_report_unique(t: Tehai, r1: Seq<MachiCondition>, r2: Seq<MachiCondition>)
    requires
        t.is_report(r1),
        t.is_report(r2),
    ensures
        r1.len() == r2.len(),
        forall|i: int|
            0 <= i < r1.len() ==> (#[trigger] r1[i]).sutehai == r2[i].sutehai && r1[i].machihai@
                == r2[i].machihai@ && r1[i].furiten == r2[i].furiten,
{
    assert forall|i: int| 0 <= i < r1.len() implies i < r2.len() && (#[trigger] r1[i]).sutehai
        == r2[i].sutehai && r1[i].machihai@ == r2[i].machihai@ && r1[i].furiten
        == r2[i].furiten by {
        let j = lemma_report_position(t, r1, r2, i);
        let k = lemma_report_position(t, r2, r1, j);
        assert(t.is_entry(r1[i]));
        assert(t.is_entry(r1[k]));
        assert(t.is_entry(r2[j]));
        lemma_same_entry(t, r1[i], r1[k]);
        if i < k {
            assert(ordered_before(r1[i], r1[k]));
        }
        assert(k == i);
        lemma_same_entry(t, r1[i], r2[i]);
    }
    if r1.len() > 0 {
        assert(r1[r1.len() - 1].sutehai == r2[r1.len() - 1].sutehai);
    }
    if r2.len() > r1.len() {
        let k = lemma_report_position(t, r2, r1, r2.len() - 1);
    }
}

} // verus!
