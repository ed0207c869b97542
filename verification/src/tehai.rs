use vstd::prelude::*;
use crate::hai::{Hai, HAI_TYPES};
use crate::block::Mentsu;
use crate::count::{
    all_valid_spec, count_of, lemma_count_add, lemma_count_insert, lemma_count_prefix,
    lemma_sum_bounds, lemma_sum_update, sorted, sum_of, zero_table,
};

verus! {

/// hai on hand.
///
/// # Japanese
/// * Tehai: 手牌
/// * juntehai: 純手牌
/// * fuuro: 副露
///
/// # Member
/// * juntehai: Vec of hai which not formed mentsu.
/// * fuuro: Mentsu which already formed.
#[derive(Debug, Clone, PartialEq, Eq)]
pub struct Tehai {
    pub juntehai: Vec<Hai>,
    pub fuuro: Vec<Mentsu>,
}

/// Why a tehai could not be made.
#[derive(Clone, Debug, PartialEq, Eq)]
pub enum TehaiError {
    /// A type character with no digits before it.
    UnusedType { hai_type: char, index: usize },
    /// A tile whose number is out of range.
    InvalidHai(Hai),
    /// The tiles between `[` and `]` make no mentsu.
    InvalidMentsu { index: usize },
    /// `[` inside `[`.
    SecondBracket { index: usize },
    /// Digits without a type character before a bracket.
    NeedType { found: char, index: usize },
    /// `]` without `[`.
    UnmatchedBracket { index: usize },
    /// A character that the notation does not know.
    UnknownCharacter { chr: char, index: usize },
    /// Digits without a type character at the end; they are carried along.
    NoType(Vec<char>),
    /// A fifth copy of a tile.
    FifthHai(Hai),
}

/// The tiles of a list of mentsu, one mentsu after the other.
pub open spec fn fuuro_tiles(f: Seq<Mentsu>) -> Seq<Hai>
    decreases f.len(),
{
    if f.len() == 0 {
        Seq::empty()
    } else {
        fuuro_tiles(f.drop_last()) + f.last().tiles()
    }
}

pub open spec fn all_mentsu_wf(f: Seq<Mentsu>) -> bool {
    forall|i: int| 0 <= i < f.len() ==> (#[trigger] f[i]).wf()
}

/// No valid tile occurs more than four times.
pub open spec fn at_most_four(s: Seq<Hai>) -> bool {
    forall|h: Hai| h.is_valid_spec() ==> count_of(s, h) <= 4
}

/// The first position at which a tile stands for the fifth time is `i`.
pub open spec fn first_fifth(s: Seq<Hai>, i: int) -> bool {
    &&& 0 <= i < s.len()
    &&& count_of(s.take(i + 1), s[i]) == 5
    &&& forall|j: int| 0 <= j < i ==> count_of(s.take(j + 1), #[trigger] s[j]) <= 4
}

/// `i` is the first position of a tile that is not valid.
pub open spec fn first_invalid_hai(s: Seq<Hai>, i: int) -> bool {
    &&& 0 <= i < s.len()
    &&& !s[i].is_valid_spec()
    &&& forall|j: int| 0 <= j < i ==> (#[trigger] s[j]).is_valid_spec()
}

/// `i` is the first position of a mentsu that is not legal.
pub open spec fn first_invalid_mentsu(f: Seq<Mentsu>, i: int) -> bool {
    &&& 0 <= i < f.len()
    &&& !f[i].wf()
    &&& forall|j: int| 0 <= j < i ==> (#[trigger] f[j]).wf()
}

/// `h` is the tile that first stands for the fifth time when the juntehai
/// are walked in ascending order and the tiles of the fuuro after them.
pub open spec fn fifth_hai(juntehai: Seq<Hai>, fuuro: Seq<Mentsu>, h: Hai) -> bool {
    exists|ordered: Seq<Hai>, i: int|
        {
            &&& sorted(ordered)
            &&& ordered.len() == juntehai.len()
            &&& forall|x: Hai| count_of(ordered, x) == count_of(juntehai, x)
            &&& #[trigger] first_fifth(ordered + fuuro_tiles(fuuro), i)
            &&& (ordered + fuuro_tiles(fuuro))[i] == h
        }
}

/// What making a tehai from tiles and mentsu gives: the first tile that is
/// not valid; else the place of the first mentsu that is not legal; else the
/// first fifth copy of a tile; else the hand, its juntehai in ascending order.
pub open spec fn makes(juntehai: Seq<Hai>, fuuro: Seq<Mentsu>, r: Result<Tehai, TehaiError>) -> bool {
    if !all_valid_spec(juntehai) {
        exists|i: int| #[trigger]
            first_invalid_hai(juntehai, i) && r == Err::<Tehai, TehaiError>(
                TehaiError::InvalidHai(juntehai[i]),
            )
    } else if !all_mentsu_wf(fuuro) {
        exists|i: int| #[trigger]
            first_invalid_mentsu(fuuro, i) && r == Err::<Tehai, TehaiError>(
                TehaiError::InvalidMentsu { index: i as usize },
            )
    } else if !at_most_four(juntehai + fuuro_tiles(fuuro)) {
        r is Err && r->Err_0 is FifthHai && fifth_hai(juntehai, fuuro, r->Err_0->FifthHai_0)
    } else {
        &&& r is Ok
        &&& r->Ok_0.wf()
        &&& r->Ok_0.fuuro@ == fuuro
        &&& r->Ok_0.juntehai@.len() == juntehai.len()
        &&& forall|x: Hai| count_of(r->Ok_0.juntehai@, x) == count_of(juntehai, x)
    }
}

proof fn lemma_fuuro_tiles_valid(f: Seq<Mentsu>)
    requires
        all_mentsu_wf(f),
    ensures
        all_valid_spec(fuuro_tiles(f)),
    decreases f.len(),
{
    if f.len() > 0 {
        lemma_fuuro_tiles_valid(f.drop_last());
        assert(f.last().wf());
    }
}

/// Insert `h` into an ascending vector, behind the tiles that do not sort after it.
fn insert_sorted(v: &mut Vec<Hai>, h: Hai)
    requires
        sorted(old(v)@),
    ensures
        sorted(final(v)@),
        final(v)@.len() == old(v)@.len() + 1,
        forall|x: Hai| count_of(final(v)@, x) == count_of(old(v)@, x) + if h == x { 1int } else { 0int },
        all_valid_spec(old(v)@) && h.is_valid_spec() ==> all_valid_spec(final(v)@),
{
    let mut p: usize = 0;
    while p < v.len() && !h.lt(&v[p])
        invariant
            p <= v.len(),
            forall|j: int| 0 <= j < p ==> v@[j].order_key() <= h.order_key(),
        decreases v.len() - p,
    {
        p += 1;
    }
    let ghost before = v@;
    v.insert(p, h);
    proof {
        assert forall|x: Hai| count_of(v@, x) == count_of(before, x) + if h == x { 1int } else { 0int } by {
            lemma_count_insert(before, p as int, h, x);
        }
        assert forall|i: int, j: int| 0 <= i < j < v@.len() implies v@[i].order_key() <= v@[j].order_key() by {
            if i < p && j > p {
                assert(v@[i] == before[i]);
                assert(v@[j] == before[j - 1]);
            }
        }
    }
}

/// The same tiles in ascending order.
pub fn sort_hai(v: &Vec<Hai>) -> (r: Vec<Hai>)
    ensures
        sorted(r@),
        r@.len() == v@.len(),
        forall|x: Hai| count_of(r@, x) == count_of(v@, x),
        all_valid_spec(v@) ==> all_valid_spec(r@),
{
    let mut r: Vec<Hai> = Vec::new();
    let mut i: usize = 0;
    while i < v.len()
        invariant
            i <= v.len(),
            sorted(r@),
            r@.len() == i,
            forall|x: Hai| count_of(r@, x) == count_of(v@.take(i as int), x),
            all_valid_spec(v@) ==> all_valid_spec(r@),
        decreases v.len() - i,
    {
        proof {
            assert(v@.take(i + 1).drop_last() =~= v@.take(i as int));
        }
        insert_sorted(&mut r, v[i]);
        i += 1;
    }
    proof {
        assert(v@.take(v@.len() as int) =~= v@);
    }
    r
}

impl Tehai {
    /// All tiles of the hand: the juntehai, then the tiles of each fuuro.
    pub open spec fn all_tiles(&self) -> Seq<Hai> {
        self.juntehai@ + fuuro_tiles(self.fuuro@)
    }

    /// A hand of valid tiles in ascending order, with legal fuuro and at most
    /// four copies of any tile.
    pub open spec fn wf(&self) -> bool {
        &&& all_valid_spec(self.juntehai@)
        &&& sorted(self.juntehai@)
        &&& all_mentsu_wf(self.fuuro@)
        &&& at_most_four(self.all_tiles())
        &&& self.all_tiles().len() <= 136
    }

    /// All tiles of the hand in one vector.
    pub fn all_hai(&self) -> (v: Vec<Hai>)
        ensures
            v@ == self.all_tiles(),
    {
        let mut v: Vec<Hai> = Vec::new();
        let mut i: usize = 0;
        while i < self.juntehai.len()
            invariant
                i <= self.juntehai.len(),
                v@ == self.juntehai@.take(i as int),
            decreases self.juntehai.len() - i,
        {
            v.push(self.juntehai[i]);
            proof {
                assert(self.juntehai@.take(i + 1) =~= self.juntehai@.take(i as int).push(
                    self.juntehai@[i as int],
                ));
            }
            i += 1;
        }
        proof {
            assert(self.juntehai@.take(self.juntehai@.len() as int) =~= self.juntehai@);
            assert(v@ =~= self.juntehai@ + fuuro_tiles(self.fuuro@.take(0)));
        }
        let mut k: usize = 0;
        while k < self.fuuro.len()
            invariant
                k <= self.fuuro.len(),
                v@ == self.juntehai@ + fuuro_tiles(self.fuuro@.take(k as int)),
            decreases self.fuuro.len() - k,
        {
            let ghost before = v@;
            let ghost done = fuuro_tiles(self.fuuro@.take(k as int));
            match self.fuuro[k] {
                Mentsu::Juntsu(a, b, c) => {
                    v.push(a);
                    v.push(b);
                    v.push(c);
                },
                Mentsu::Koutsu(a) => {
                    v.push(a);
                    v.push(a);
                    v.push(a);
                },
                Mentsu::Kantsu(a) => {
                    v.push(a);
                    v.push(a);
                    v.push(a);
                    v.push(a);
                },
            }
            proof {
                assert(self.fuuro@.take(k + 1).drop_last() =~= self.fuuro@.take(k as int));
                assert(v@ =~= before + self.fuuro@[k as int].tiles());
                assert(v@ =~= self.juntehai@ + (done + self.fuuro@[k as int].tiles()));
            }
            k += 1;
        }
        proof {
            assert(self.fuuro@.take(self.fuuro@.len() as int) =~= self.fuuro@);
        }
        v
    }

    /// Look for a fifth copy of a tile, walking the juntehai and then the fuuro.
    pub fn check_hai_number(&self) -> (r: Result<(), Hai>)
        requires
            all_valid_spec(self.juntehai@),
            all_mentsu_wf(self.fuuro@),
        ensures
            r is Ok <==> at_most_four(self.all_tiles()),
            r is Ok ==> self.all_tiles().len() <= 136,
            r is Err ==> exists|i: int| first_fifth(self.all_tiles(), i) && self.all_tiles()[i] == r->Err_0,
    {
        let all: Vec<Hai> = self.all_hai();
        proof {
            lemma_fuuro_tiles_valid(self.fuuro@);
        }
        let mut table: Vec<u8> = zero_table();
        let mut i: usize = 0;
        proof {
            lemma_sum_bounds(table@, 0);
        }
        while i < all.len()
            invariant
                i <= all.len(),
                all@ == self.all_tiles(),
                all_valid_spec(all@),
                table@.len() == HAI_TYPES,
                forall|k: int| 0 <= k < HAI_TYPES ==> table@[k] as int == count_of(all@.take(i as int), Hai::at_index(k)),
                forall|k: int| 0 <= k < HAI_TYPES ==> table@[k] <= 4,
                forall|j: int| 0 <= j < i ==> count_of(all@.take(j + 1), #[trigger] all@[j]) <= 4,
                sum_of(table@) == i,
            decreases all.len() - i,
        {
            let hai: Hai = all[i];
            let k: usize = hai.to_index();
            proof {
                assert(all@.take(i + 1).drop_last() =~= all@.take(i as int));
            }
            if table[k] >= 4 {
                proof {
                    assert(Hai::at_index(k as int) == hai);
                    assert(count_of(all@.take(i + 1), hai) == count_of(all@.take(i as int), hai) + 1);
                    assert(first_fifth(all@, i as int) && all@[i as int] == hai);
                    lemma_count_prefix(all@, i + 1, hai);
                }
                return Err(hai);
            }
            proof {
                lemma_sum_update(table@, k as int, (table@[k as int] + 1) as u8);
            }
            table.set(k, table[k] + 1);
            proof {
                assert forall|m: int| 0 <= m < HAI_TYPES implies table@[m] as int == count_of(
                    all@.take(i + 1),
                    Hai::at_index(m),
                ) by {
                    crate::hai::lemma_index_order(hai, Hai::at_index(m));
                }
            }
            i += 1;
        }
        proof {
            assert(all@.take(all@.len() as int) =~= all@);
            lemma_sum_bounds(table@, 4);
            assert forall|h: Hai| h.is_valid_spec() implies count_of(all@, h) <= 4 by {
                crate::hai::lemma_index_order(h, h);
                assert(table@[h.index()] as int == count_of(all@, Hai::at_index(h.index())));
            }
        }
        Ok(())
    }

    /// Make a tehai from concealed tiles in any order and the mentsu already formed.
    ///
    /// Fails on a tile out of range, on a fuuro that is no legal mentsu, and
    /// on a fifth copy of a tile.
    pub fn from_parts(juntehai: Vec<Hai>, fuuro: Vec<Mentsu>) -> (r: Result<Tehai, TehaiError>)
        ensures
            makes(juntehai@, fuuro@, r),
    {
        let mut i: usize = 0;
        while i < juntehai.len()
            invariant
                i <= juntehai.len(),
                forall|j: int| 0 <= j < i ==> (#[trigger] juntehai@[j]).is_valid_spec(),
            decreases juntehai.len() - i,
        {
            if !juntehai[i].is_valid() {
                proof {
                    assert(first_invalid_hai(juntehai@, i as int));
                }
                return Err(TehaiError::InvalidHai(juntehai[i]));
            }
            i += 1;
        }
        let mut k: usize = 0;
        while k < fuuro.len()
            invariant
                k <= fuuro.len(),
                all_valid_spec(juntehai@),
                forall|j: int| 0 <= j < k ==> (#[trigger] fuuro@[j]).wf(),
            decreases fuuro.len() - k,
        {
            if !mentsu_is_wf(&fuuro[k]) {
                proof {
                    assert(first_invalid_mentsu(fuuro@, k as int));
                }
                return Err(TehaiError::InvalidMentsu { index: k });
            }
            k += 1;
        }
        let sorted_hai: Vec<Hai> = sort_hai(&juntehai);
        let tehai = Tehai { juntehai: sorted_hai, fuuro };
        proof {
            let f = fuuro_tiles(fuuro@);
            assert forall|h: Hai| count_of(tehai.all_tiles(), h) == count_of(juntehai@ + f, h) by {
                lemma_count_add(tehai.juntehai@, f, h);
                lemma_count_add(juntehai@, f, h);
            }
        }
        match tehai.check_hai_number() {
            Ok(_) => Ok(tehai),
            Err(hai) => {
                proof {
                    let i = choose|i: int|
                        first_fifth(tehai.all_tiles(), i) && tehai.all_tiles()[i] == hai;
                    assert(first_fifth(tehai.juntehai@ + fuuro_tiles(fuuro@), i));
                }
                Err(TehaiError::FifthHai(hai))
            },
        }
    }
}

/// Whether a mentsu has one of the three legal shapes, on valid tiles.
pub fn mentsu_is_wf(m: &Mentsu) -> (b: bool)
    ensures
        b == m.wf(),
{
    match *m {
        Mentsu::Juntsu(a, b, c) => {
            if !a.is_valid() || a.is_jihai() {
                return false;
            }
            match a.next() {
                Some(x) => {
                    if !(x == b) {
                        return false;
                    }
                    match b.next() {
                        Some(y) => y == c,
                        None => false,
                    }
                },
                None => false,
            }
        },
        Mentsu::Koutsu(a) => a.is_valid(),
        Mentsu::Kantsu(a) => a.is_valid(),
    }
}

} // verus!
