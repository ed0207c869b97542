use vstd::prelude::*;
use crate::decomposer::{
    contains_shape, lemma_shapes_push, lemma_split_extends, min_int, shapes, split_spec,
    split_tiles, Decomposer, Hourakei, Shape,
};
use crate::special::{
    chiitoitsu_spec, decompose_chiitoitsu, decompose_kokushimusou, kokushimusou_spec,
    lemma_chiitoitsu_fits, lemma_kokushimusou_fits,
};
use crate::tehai::Tehai;

verus! {

/// Why a hand could not be analyzed.
#[derive(Copy, Clone, Debug, PartialEq, Eq, Structural)]
pub enum AnalyzeError {
    /// The number of juntehai is not `3k+2`; it is carried along.
    HaiNumber(usize),
    /// A shanten below -1, which no hand has.
    Shanten,
    /// A state that the analysis cannot reach.
    Logic,
}

/// The smallest shanten among `c`, and `bound` if that is smaller still.
pub open spec fn min_shanten_of(c: Seq<Shape>, n: int, bound: int) -> int
    decreases c.len(),
{
    if c.len() == 0 {
        bound
    } else {
        min_int(min_shanten_of(c.drop_last(), n, bound), c.last().shanten(n))
    }
}

/// The shapes of `c` whose shanten is `m`, in their order, each one once:
/// a shape that equals an earlier one in all its lists and in its form is
/// left out.
pub open spec fn keep_shanten(c: Seq<Shape>, n: int, m: int) -> Seq<Shape>
    decreases c.len(),
{
    if c.len() == 0 {
        Seq::empty()
    } else {
        let kept = keep_shanten(c.drop_last(), n, m);
        if c.last().shanten(n) == m && !kept.contains(c.last()) {
            kept.push(c.last())
        } else {
            kept
        }
    }
}

pub open spec fn all_fit(c: Seq<Shape>, n: int) -> bool {
    forall|i: int| 0 <= i < c.len() ==> (#[trigger] c[i]).fits(n)
}

impl Tehai {
    /// Chiitoitsu and kokushimusou are open to 14 juntehai without fuuro only.
    pub open spec fn special_forms(&self) -> bool {
        self.juntehai@.len() == 14 && self.fuuro@.len() == 0
    }

    /// Every decomposition that is looked at: those of the mentsute search,
    /// then, where they are open, the chiitoitsu and the kokushimusou one.
    pub open spec fn candidates(&self) -> Seq<Shape> {
        split_spec(self.juntehai@, Shape::empty(Hourakei::Mentsute)) + if self.special_forms() {
            seq![chiitoitsu_spec(self.juntehai@), kokushimusou_spec(self.juntehai@)]
        } else {
            Seq::empty()
        }
    }

    /// The shanten of the hand: the smallest among its decompositions, none
    /// counted above that of a hand without any block.
    pub open spec fn min_shanten(&self) -> int {
        let n = self.juntehai@.len() as int;
        min_shanten_of(self.candidates(), n, 2 * (n / 3))
    }

    /// The decompositions that reach the shanten of the hand.
    pub open spec fn retained(&self) -> Seq<Shape> {
        keep_shanten(self.candidates(), self.juntehai@.len() as int, self.min_shanten())
    }

    /// Every decomposition of a hand of `3k+2` juntehai holds all of them.
    pub proof fn lemma_candidates_fit(&self)
        requires
            self.juntehai@.len() % 3 == 2,
        ensures
            all_fit(self.candidates(), self.juntehai@.len() as int),
    {
        let n = self.juntehai@.len() as int;
        let e = Shape::empty(Hourakei::Mentsute);
        let s = split_spec(self.juntehai@, e);
        lemma_split_extends(self.juntehai@, e);
        assert(e.all_taatsu_ok());
        assert forall|i: int| 0 <= i < self.candidates().len() implies (
        #[trigger] self.candidates()[i]).fits(n) by {
            if i < s.len() {
                assert(crate::decomposer::extends(s[i], e, n));
                assert(self.candidates()[i] == s[i]);
            } else {
                lemma_chiitoitsu_fits(self.juntehai@);
                lemma_kokushimusou_fits(self.juntehai@);
            }
        }
    }

    /// Add to `decomposers_vec` every mentsute decomposition of the juntehai
    /// on top of the blocks of `decomposer`.
    pub fn split(&self, decomposers_vec: &mut Vec<Decomposer>, decomposer: Decomposer)
        ensures
            shapes(final(decomposers_vec)@) == shapes(old(decomposers_vec)@) + split_spec(
                self.juntehai@,
                decomposer@,
            ),
    {
        split_tiles(&self.juntehai, decomposer, decomposers_vec);
    }

    /// Decompose self to a vec of Decomposer.
    ///
    /// # Return
    /// * The `i32` data is the minimum shanten.
    /// * The `Vec<Decomposer>` data is all decomposers whose shanten is the minimum one,
    ///   each one once.
    pub fn decompose(&self) -> (r: Result<(i32, Vec<Decomposer>), AnalyzeError>)
        requires
            self.juntehai@.len() <= 0x3fff_ffff,
        ensures
            r is Err <==> self.juntehai@.len() % 3 != 2,
            r is Err ==> r->Err_0 == AnalyzeError::HaiNumber(self.juntehai.len()),
            r is Ok ==> {
                let (shanten, kept) = r->Ok_0;
                &&& shanten as int == self.min_shanten()
                &&& shanten >= -1
                &&& shapes(kept@) == self.retained()
                &&& forall|i: int|
                    0 <= i < kept@.len() ==> (#[trigger] kept@[i])@.fits(self.juntehai@.len() as int)
                        && kept@[i]@.shanten(self.juntehai@.len() as int) == shanten
            },
    {
        let n: usize = self.juntehai.len();
        // Only work for 3*k+2 juntehai.
        if n % 3 != 2 {
            return Err(AnalyzeError::HaiNumber(n));
        }
        // Analyze Mentsute
        let mut all: Vec<Decomposer> = Vec::new();
        self.split(&mut all, Decomposer::new());
        proof {
            assert(shapes(all@) =~= split_spec(self.juntehai@, Shape::empty(Hourakei::Mentsute)));
        }
        // Analyze Chiitoitsu and Kokushimusou.
        if n == 14 && self.fuuro.len() == 0 {
            let chiitoitsu = decompose_chiitoitsu(&self.juntehai);
            proof {
                lemma_shapes_push(all@, chiitoitsu);
            }
            all.push(chiitoitsu);
            let kokushimusou = decompose_kokushimusou(&self.juntehai);
            proof {
                lemma_shapes_push(all@, kokushimusou);
            }
            all.push(kokushimusou);
            proof {
                assert(shapes(all@) =~= self.candidates());
            }
        } else {
            proof {
                assert(shapes(all@) =~= self.candidates());
            }
        }
        proof {
            self.lemma_candidates_fit();
            assert forall|i: int| 0 <= i < all@.len() implies (#[trigger] all@[i])@.fits(n as int) by {
                assert(shapes(all@)[i] == all@[i]@);
            }
        }
        let ghost cands = shapes(all@);
        let bound: i32 = ((n / 3) * 2) as i32;
        let mut min_shanten: i32 = bound;
        let mut i: usize = 0;
        while i < all.len()
            invariant
                i <= all.len(),
                n == self.juntehai@.len(),
                n <= 0x3fff_ffff,
                cands == shapes(all@),
                forall|k: int| 0 <= k < all@.len() ==> (#[trigger] all@[k])@.fits(n as int),
                min_shanten as int == min_shanten_of(cands.take(i as int), n as int, bound as int),
                -1 <= min_shanten <= bound,
            decreases all.len() - i,
        {
            proof {
                assert(cands.take(i + 1).drop_last() =~= cands.take(i as int));
                assert(cands.take(i + 1).last() == all@[i as int]@);
            }
            let s: i32 = all[i].shanten(n);
            if s < min_shanten {
                min_shanten = s;
            }
            i += 1;
        }
        proof {
            assert(cands.take(all@.len() as int) =~= cands);
        }
        let mut kept: Vec<Decomposer> = Vec::new();
        let mut i: usize = 0;
        while i < all.len()
            invariant
                i <= all.len(),
                n == self.juntehai@.len(),
                n <= 0x3fff_ffff,
                cands == shapes(all@),
                forall|k: int| 0 <= k < all@.len() ==> (#[trigger] all@[k])@.fits(n as int),
                shapes(kept@) == keep_shanten(cands.take(i as int), n as int, min_shanten as int),
                forall|k: int|
                    0 <= k < kept@.len() ==> (#[trigger] kept@[k])@.fits(n as int) && kept@[k]@.shanten(
                        n as int,
                    ) == min_shanten,
            decreases all.len() - i,
        {
            proof {
                assert(cands.take(i + 1).drop_last() =~= cands.take(i as int));
                assert(cands.take(i + 1).last() == all@[i as int]@);
            }
            if all[i].shanten(n) == min_shanten && !contains_shape(&kept, &all[i]) {
                let d = all[i].duplicate();
                proof {
                    lemma_shapes_push(kept@, d);
                }
                kept.push(d);
            }
            i += 1;
        }
        proof {
            assert(cands.take(all@.len() as int) =~= cands);
        }
        Ok((min_shanten, kept))
    }
}

impl Shape {
    /// The decomposition is a winning hand of its form: as many mentsu as the
    /// hand has room for and one toitsu; seven toitsu; or fourteen useful
    /// yaochuupai, which are the thirteen types and one of them twice.
    pub open spec fn is_complete(self, n: int) -> bool {
        match self.hourakei {
            Hourakei::Mentsute => self.mentsu.len() == n / 3 && self.toitsu.len() == 1,
            Hourakei::Chiitoitsu => self.toitsu.len() == 7,
            Hourakei::Kokushimusou => self.valid_ukihai.len() == 14,
        }
    }
}

/// A decomposition of a whole hand has shanten -1 exactly when it is a
/// winning hand of its form.
pub proof fn lemma_shanten_complete(d: Shape, n: int)
    requires
        d.fits(n),
    ensures
        d.shanten(n) >= -1,
        d.shanten(n) == -1 <==> d.is_complete(n),
{
    if d.hourakei == Hourakei::Mentsute && d.toitsu.len() == 1 {
        assert(!d.has_repeated_toitsu());
    }
}

proof fn lemma_min_shanten_of(c: Seq<Shape>, n: int, bound: int)
    requires
        all_fit(c, n),
        bound >= 0,
    ensures
        -1 <= min_shanten_of(c, n, bound) <= bound,
        min_shanten_of(c, n, bound) == -1 <==> exists|i: int|
            0 <= i < c.len() && (#[trigger] c[i]).is_complete(n),
    decreases c.len(),
{
    if c.len() > 0 {
        let r = c.drop_last();
        assert forall|i: int| 0 <= i < r.len() implies (#[trigger] r[i]).fits(n) by {
            assert(r[i] == c[i]);
        }
        lemma_min_shanten_of(r, n, bound);
        lemma_shanten_complete(c.last(), n);
        if min_shanten_of(c, n, bound) == -1 {
            if c.last().shanten(n) == -1 {
                assert(c[c.len() - 1].is_complete(n));
            } else {
                let i = choose|i: int| 0 <= i < r.len() && (#[trigger] r[i]).is_complete(n);
                assert(c[i].is_complete(n));
            }
        }
        if exists|i: int| 0 <= i < c.len() && (#[trigger] c[i]).is_complete(n) {
            let i = choose|i: int| 0 <= i < c.len() && (#[trigger] c[i]).is_complete(n);
            if i < r.len() {
                assert(r[i].is_complete(n));
            }
        }
    }
}

/// The shanten of a hand of `3k+2` juntehai is at least -1, and it is -1
/// exactly when one of the decompositions of the hand is a winning hand.
pub proof fn lemma_shanten_is_sound(t: Tehai)
    requires
        t.juntehai@.len() % 3 == 2,
    ensures
        t.min_shanten() >= -1,
        t.min_shanten() == -1 <==> exists|i: int|
            0 <= i < t.candidates().len() && (#[trigger] t.candidates()[i]).is_complete(
                t.juntehai@.len() as int,
            ),
{
    let n = t.juntehai@.len() as int;
    t.lemma_candidates_fit();
    lemma_min_shanten_of(t.candidates(), n, 2 * (n / 3));
}

/// Chiitoitsu and kokushimusou are looked at for 14 juntehai without fuuro,
/// after the mentsute decompositions, and for no other hand.
pub proof fn lemma_forms_looked_at(t: Tehai)
    ensures
        !t.special_forms() ==> forall|i: int|
            0 <= i < t.candidates().len() ==> (#[trigger] t.candidates()[i]).hourakei
                == Hourakei::Mentsute,
        t.special_forms() ==> {
            let c = t.candidates();
            &&& c.len() >= 3
            &&& c[c.len() - 2] == chiitoitsu_spec(t.juntehai@)
            &&& c[c.len() - 2].hourakei == Hourakei::Chiitoitsu
            &&& c[c.len() - 1] == kokushimusou_spec(t.juntehai@)
            &&& c[c.len() - 1].hourakei == Hourakei::Kokushimusou
            &&& forall|i: int| 0 <= i < c.len() - 2 ==> (#[trigger] c[i]).hourakei == Hourakei::Mentsute
        },
{
    let e = Shape::empty(Hourakei::Mentsute);
    let s = split_spec(t.juntehai@, e);
    lemma_split_extends(t.juntehai@, e);
    assert forall|i: int| 0 <= i < s.len() implies (#[trigger] t.candidates()[i]).hourakei
        == Hourakei::Mentsute by {
        assert(crate::decomposer::extends(s[i], e, t.juntehai@.len() as int));
        assert(t.candidates()[i] == s[i]);
    }
    if t.special_forms() {
        crate::special::lemma_chiitoitsu_scan_count(t.juntehai@, 14);
        crate::special::lemma_kokushimusou_scan_count(t.juntehai@, 14);
    }
}

} // verus!
