use vstd::prelude::*;
use crate::hai::Hai;
use crate::block::{Mentsu, Taatsu, Toitsu, Ukihai};

verus! {

/// Form of tehai when winning.
///
/// **Note**: Only 14 juntehai without fuuro can be Kokushimusou and Chiitoitsu.
///
/// # Japanese
/// * Hourakei: 和了形
/// * Mentsute: 面子手
/// * Chiitoitsu: 七対子
/// * Kokushimusou: 国士無双
#[derive(Copy, Clone, Debug, Hash, PartialEq, Eq, Structural)]
pub enum Hourakei {
    Mentsute,
    Chiitoitsu,
    Kokushimusou,
}

/// The mathematical content of a `Decomposer`: the blocks found so far, each
/// list in the order in which its blocks were found, and the targeted form.
pub struct Shape {
    pub mentsu: Seq<Mentsu>,
    pub toitsu: Seq<Toitsu>,
    pub taatsu: Seq<Taatsu>,
    pub valid_ukihai: Seq<Ukihai>,
    pub invalid_ukihai: Seq<Ukihai>,
    pub hourakei: Hourakei,
}

/// Decompose a tehai to mentsu, taatsu, toitsu and ukihai for analyzing hai waiting for.
///
/// # Member
/// * valid_ukihai_vec: Ukihai that can provide shanten, such as `3p`, `5p`, `6p` and `8p` in
/// `11224477m356778p`, or any yaochuupai in kokushimusou type.
/// * invalid_ukihai_vec: Ukihai that cannot provide shanten, absolutely useless, such as `1m`
/// in `111224477m34577p`, or any non-yaochuupai in kokushimusou type.
#[derive(Clone, Debug, Hash, PartialEq, Eq)]
pub struct Decomposer {
    pub mentsu_vec: Vec<Mentsu>,
    pub toitsu_vec: Vec<Toitsu>,
    pub taatsu_vec: Vec<Taatsu>,
    pub valid_ukihai_vec: Vec<Ukihai>,
    pub invalid_ukihai_vec: Vec<Ukihai>,
    pub hourakei: Hourakei,
}

impl View for Decomposer {
    type V = Shape;

    open spec fn view(&self) -> Shape {
        Shape {
            mentsu: self.mentsu_vec@,
            toitsu: self.toitsu_vec@,
            taatsu: self.taatsu_vec@,
            valid_ukihai: self.valid_ukihai_vec@,
            invalid_ukihai: self.invalid_ukihai_vec@,
            hourakei: self.hourakei,
        }
    }
}

pub open spec fn min_int(a: int, b: int) -> int {
    if a <= b { a } else { b }
}

/// A taatsu of one suit whose tiles are one or two ranks apart, lower tile first.
pub open spec fn taatsu_ok(t: Taatsu) -> bool {
    t.0.is_valid_spec() && t.1.is_valid_spec() && !(t.0 is Jihai) && t.0.category()
        == t.1.category() && (t.1.number() == t.0.number() + 1 || t.1.number() == t.0.number() + 2)
}

/// A koutsu, or a juntsu of three tiles of one suit in a row.
pub open spec fn mentsu_ok(m: Mentsu) -> bool {
    match m {
        Mentsu::Juntsu(a, b, c) => a.next_spec() == Some(b) && b.next_spec() == Some(c),
        Mentsu::Koutsu(_) => true,
        Mentsu::Kantsu(_) => false,
    }
}

impl Shape {
    /// No blocks yet.
    pub open spec fn empty(hourakei: Hourakei) -> Shape {
        Shape {
            mentsu: Seq::empty(),
            toitsu: Seq::empty(),
            taatsu: Seq::empty(),
            valid_ukihai: Seq::empty(),
            invalid_ukihai: Seq::empty(),
            hourakei,
        }
    }

    pub open spec fn push_mentsu(self, m: Mentsu) -> Shape {
        Shape { mentsu: self.mentsu.push(m), ..self }
    }

    pub open spec fn push_toitsu(self, h: Hai) -> Shape {
        Shape { toitsu: self.toitsu.push(Toitsu(h)), ..self }
    }

    pub open spec fn push_taatsu(self, a: Hai, b: Hai) -> Shape {
        Shape { taatsu: self.taatsu.push(Taatsu(a, b)), ..self }
    }

    pub open spec fn push_valid(self, h: Hai) -> Shape {
        Shape { valid_ukihai: self.valid_ukihai.push(Ukihai(h)), ..self }
    }

    pub open spec fn push_invalid(self, h: Hai) -> Shape {
        Shape { invalid_ukihai: self.invalid_ukihai.push(Ukihai(h)), ..self }
    }

    /// Number of tiles that the blocks hold, a mentsu counted as three.
    pub open spec fn tile_count(self) -> int {
        (3 * self.mentsu.len() + 2 * self.toitsu.len() + 2 * self.taatsu.len()
            + self.valid_ukihai.len() + self.invalid_ukihai.len()) as int
    }

    /// Whether one tile value stands in the toitsu list twice.
    pub open spec fn has_repeated_toitsu(self) -> bool {
        exists|i: int, j: int| 0 <= i < j < self.toitsu.len() && self.toitsu[i] == self.toitsu[j]
    }

    pub open spec fn all_taatsu_ok(self) -> bool {
        forall|i: int| 0 <= i < self.taatsu.len() ==> taatsu_ok(#[trigger] self.taatsu[i])
    }

    pub open spec fn all_mentsu_ok(self) -> bool {
        forall|i: int| 0 <= i < self.mentsu.len() ==> mentsu_ok(#[trigger] self.mentsu[i])
    }

    /// The shape partitions `n` tiles, `n` is `3k+2`, and the two special forms
    /// only occur with 14 tiles.
    pub open spec fn fits(self, n: int) -> bool {
        &&& self.tile_count() == n
        &&& n % 3 == 2
        &&& self.hourakei != Hourakei::Mentsute ==> n == 14
        &&& self.all_taatsu_ok()
    }

    /// Distance of this decomposition from a win, for a hand of `n` concealed tiles.
    ///
    /// # Japanese
    /// * shanten: 向聴
    pub open spec fn shanten(self, n: int) -> int {
        match self.hourakei {
            Hourakei::Mentsute => {
                if self.has_repeated_toitsu() {
                    13
                } else {
                    let cap = (n + 1) / 3;
                    let taatsu_used = min_int(cap - 1 - self.mentsu.len(), self.taatsu.len() as int);
                    let toitsu_used = min_int(
                        cap - self.mentsu.len() - taatsu_used,
                        self.toitsu.len() as int,
                    );
                    2 * (n / 3) - 2 * self.mentsu.len() - toitsu_used - taatsu_used
                }
            },
            Hourakei::Chiitoitsu => 13 - 2 * self.toitsu.len() - min_int(
                self.valid_ukihai.len() as int,
                7 - self.toitsu.len(),
            ),
            Hourakei::Kokushimusou => 13 - self.valid_ukihai.len(),
        }
    }
}

/// A copy of a vector of plain values.
pub fn copy_vec<T: Copy>(v: &Vec<T>) -> (r: Vec<T>)
    ensures
        r@ == v@,
{
    let mut r: Vec<T> = Vec::new();
    let mut i: usize = 0;
    while i < v.len()
        invariant
            i <= v.len(),
            r@ == v@.take(i as int),
        decreases v.len() - i,
    {
        r.push(v[i]);
        proof {
            assert(v@.take(i + 1) =~= v@.take(i as int).push(v@[i as int]));
        }
        i += 1;
    }
    proof {
        assert(v@.take(v@.len() as int) =~= v@);
    }
    r
}

/// Whether two vectors hold the same mentsu in the same order.
fn same_mentsu(a: &Vec<Mentsu>, b: &Vec<Mentsu>) -> (r: bool)
    ensures
        r == (a@ == b@),
{
    if a.len() != b.len() {
        return false;
    }
    let mut i: usize = 0;
    while i < a.len()
        invariant
            i <= a.len(),
            a@.len() == b@.len(),
            forall|j: int| 0 <= j < i ==> a@[j] == b@[j],
        decreases a.len() - i,
    {
        if !(a[i] == b[i]) {
            return false;
        }
        i += 1;
    }
    proof {
        assert(a@ =~= b@);
    }
    true
}

/// Whether two vectors hold the same toitsu in the same order.
fn same_toitsu(a: &Vec<Toitsu>, b: &Vec<Toitsu>) -> (r: bool)
    ensures
        r == (a@ == b@),
{
    if a.len() != b.len() {
        return false;
    }
    let mut i: usize = 0;
    while i < a.len()
        invariant
            i <= a.len(),
            a@.len() == b@.len(),
            forall|j: int| 0 <= j < i ==> a@[j] == b@[j],
        decreases a.len() - i,
    {
        if !(a[i] == b[i]) {
            return false;
        }
        i += 1;
    }
    proof {
        assert(a@ =~= b@);
    }
    true
}

/// Whether two vectors hold the same taatsu in the same order.
fn same_taatsu(a: &Vec<Taatsu>, b: &Vec<Taatsu>) -> (r: bool)
    ensures
        r == (a@ == b@),
{
    if a.len() != b.len() {
        return false;
    }
    let mut i: usize = 0;
    while i < a.len()
        invariant
            i <= a.len(),
            a@.len() == b@.len(),
            forall|j: int| 0 <= j < i ==> a@[j] == b@[j],
        decreases a.len() - i,
    {
        if !(a[i] == b[i]) {
            return false;
        }
        i += 1;
    }
    proof {
        assert(a@ =~= b@);
    }
    true
}

/// Whether two vectors hold the same ukihai in the same order.
fn same_ukihai(a: &Vec<Ukihai>, b: &Vec<Ukihai>) -> (r: bool)
    ensures
        r == (a@ == b@),
{
    if a.len() != b.len() {
        return false;
    }
    let mut i: usize = 0;
    while i < a.len()
        invariant
            i <= a.len(),
            a@.len() == b@.len(),
            forall|j: int| 0 <= j < i ==> a@[j] == b@[j],
        decreases a.len() - i,
    {
        if !(a[i] == b[i]) {
            return false;
        }
        i += 1;
    }
    proof {
        assert(a@ =~= b@);
    }
    true
}

impl Decomposer {
    /// Whether two decomposers hold the same blocks in the same order, for the same form.
    pub fn same_as(&self, other: &Decomposer) -> (r: bool)
        ensures
            r == (self@ == other@),
    {
        self.hourakei == other.hourakei && same_mentsu(&self.mentsu_vec, &other.mentsu_vec)
            && same_toitsu(&self.toitsu_vec, &other.toitsu_vec) && same_taatsu(
            &self.taatsu_vec,
            &other.taatsu_vec,
        ) && same_ukihai(&self.valid_ukihai_vec, &other.valid_ukihai_vec) && same_ukihai(
            &self.invalid_ukihai_vec,
            &other.invalid_ukihai_vec,
        )
    }

    pub fn new() -> (d: Self)
        ensures
            d@ == Shape::empty(Hourakei::Mentsute),
    {
        Self {
            mentsu_vec: Vec::new(),
            toitsu_vec: Vec::new(),
            taatsu_vec: Vec::new(),
            valid_ukihai_vec: Vec::new(),
            invalid_ukihai_vec: Vec::new(),
            hourakei: Hourakei::Mentsute,
        }
    }

    /// A copy with the same blocks.
    pub fn duplicate(&self) -> (d: Self)
        ensures
            d@ == self@,
    {
        Self {
            mentsu_vec: copy_vec(&self.mentsu_vec),
            toitsu_vec: copy_vec(&self.toitsu_vec),
            taatsu_vec: copy_vec(&self.taatsu_vec),
            valid_ukihai_vec: copy_vec(&self.valid_ukihai_vec),
            invalid_ukihai_vec: copy_vec(&self.invalid_ukihai_vec),
            hourakei: self.hourakei,
        }
    }

    /// Whether one tile value stands in the toitsu list twice.
    pub fn has_repeated_toitsu(&self) -> (b: bool)
        ensures
            b == self@.has_repeated_toitsu(),
    {
        let n: usize = self.toitsu_vec.len();
        let mut i: usize = 0;
        while i < n
            invariant
                i <= n,
                n == self.toitsu_vec@.len(),
                forall|a: int, c: int| 0 <= a < i && a < c < n ==> self.toitsu_vec@[a] != self.toitsu_vec@[c],
            decreases n - i,
        {
            let mut j: usize = i + 1;
            while j < n
                invariant
                    i < j <= n,
                    n == self.toitsu_vec@.len(),
                    forall|c: int| i < c < j ==> self.toitsu_vec@[i as int] != self.toitsu_vec@[c],
                decreases n - j,
            {
                if self.toitsu_vec[i] == self.toitsu_vec[j] {
                    proof {
                        assert(self@.toitsu[i as int] == self@.toitsu[j as int]);
                    }
                    return true;
                }
                j += 1;
            }
            i += 1;
        }
        false
    }

    /// Calculate shanten for current decomposer.
    ///
    /// # Japanese
    /// * shanten: 向聴
    pub fn shanten(&self, juntehai_number: usize) -> (s: i32)
        requires
            self@.fits(juntehai_number as int),
            juntehai_number <= 0x3fff_ffff,
        ensures
            s as int == self@.shanten(juntehai_number as int),
            s >= -1,
    {
        match self.hourakei {
            Hourakei::Mentsute => {
                if self.has_repeated_toitsu() {
                    return 13;
                }
                let max_mentsu_toitsu_taatsu: usize = (juntehai_number + 1) / 3;
                let mentsu_num: usize = self.mentsu_vec.len();
                let taatsu_len: usize = self.taatsu_vec.len();
                let toitsu_len: usize = self.toitsu_vec.len();
                let taatsu_room: usize = max_mentsu_toitsu_taatsu - 1 - mentsu_num;
                let taatsu_num: usize = if taatsu_room < taatsu_len {
                    taatsu_room
                } else {
                    taatsu_len
                };
                let toitsu_room: usize = max_mentsu_toitsu_taatsu - mentsu_num - taatsu_num;
                let toitsu_num: usize = if toitsu_room < toitsu_len {
                    toitsu_room
                } else {
                    toitsu_len
                };
                ((juntehai_number / 3) * 2) as i32 - 2 * (mentsu_num as i32) - (toitsu_num as i32)
                    - (taatsu_num as i32)
            },
            Hourakei::Chiitoitsu => {
                let toitsu_len: usize = self.toitsu_vec.len();
                let valid_len: usize = self.valid_ukihai_vec.len();
                let room: usize = 7 - toitsu_len;
                let used: usize = if valid_len < room { valid_len } else { room };
                13 - 2 * (toitsu_len as i32) - (used as i32)
            },
            Hourakei::Kokushimusou => 13 - (self.valid_ukihai_vec.len() as i32),
        }
    }
}

/// Position of the first `x` in `s`, or the length of `s` if there is none.
pub open spec fn first_index(s: Seq<Hai>, x: Hai) -> int
    decreases s.len(),
{
    if s.len() == 0 {
        0
    } else if s[0] == x {
        0
    } else {
        1 + first_index(s.drop_first(), x)
    }
}

/// `s` without its first `x`; `s` itself where it holds none.
pub open spec fn remove_once_spec(s: Seq<Hai>, x: Hai) -> Seq<Hai> {
    let i = first_index(s, x);
    if 0 <= i < s.len() {
        s.remove(i)
    } else {
        s
    }
}

pub proof fn lemma_first_index(s: Seq<Hai>, x: Hai, i: int)
    requires
        0 <= i <= s.len(),
        forall|j: int| 0 <= j < i ==> s[j] != x,
        i < s.len() ==> s[i] == x,
    ensures
        first_index(s, x) == i,
        s.contains(x) == (i < s.len()),
    decreases i,
{
    if s.len() == 0 {
    } else if i == 0 {
        assert(s[0] == x);
    } else {
        let r = s.drop_first();
        assert forall|j: int| 0 <= j < i - 1 implies r[j] != x by {
            assert(r[j] == s[j + 1]);
        }
        lemma_first_index(r, x, i - 1);
    }
    if i < s.len() {
        assert(s[i] == x);
    }
}

/// Whether `x` occurs in `v`, and where first.
pub fn find_first(v: &Vec<Hai>, x: &Hai) -> (i: usize)
    ensures
        i as int == first_index(v@, *x),
        i <= v@.len(),
        v@.contains(*x) == (i < v@.len()),
{
    let mut i: usize = 0;
    while i < v.len()
        invariant
            i <= v.len(),
            forall|j: int| 0 <= j < i ==> v@[j] != *x,
        decreases v.len() - i,
    {
        if v[i] == *x {
            proof {
                lemma_first_index(v@, *x, i as int);
            }
            return i;
        }
        i += 1;
    }
    proof {
        lemma_first_index(v@, *x, i as int);
    }
    i
}

/// Remove the first occurrence of `item`, if there is one.
pub fn remove_once(container: &mut Vec<Hai>, item: &Hai)
    ensures
        final(container)@ == remove_once_spec(old(container)@, *item),
{
    let i: usize = find_first(container, item);
    if i < container.len() {
        container.remove(i);
    }
}

/// The tiles of `v` from position `from` on.
pub fn tail_from(v: &Vec<Hai>, from: usize) -> (r: Vec<Hai>)
    requires
        from <= v@.len(),
    ensures
        r@ == v@.subrange(from as int, v@.len() as int),
{
    let mut r: Vec<Hai> = Vec::new();
    let mut i: usize = from;
    while i < v.len()
        invariant
            from <= i <= v.len(),
            r@ == v@.subrange(from as int, i as int),
        decreases v.len() - i,
    {
        r.push(v[i]);
        proof {
            assert(v@.subrange(from as int, i + 1) =~= v@.subrange(from as int, i as int).push(
                v@[i as int],
            ));
        }
        i += 1;
    }
    r
}

/// The decompositions in which the smallest tile is half of a toitsu.
pub open spec fn split_toitsu(tiles: Seq<Hai>, d: Shape) -> Seq<Shape>
    decreases tiles.len(), 0int,
{
    if tiles.len() >= 2 && tiles[1] == tiles[0] {
        split_spec(tiles.subrange(2, tiles.len() as int), d.push_toitsu(tiles[0]))
    } else {
        Seq::empty()
    }
}

/// The decompositions in which the smallest tile is a third of a koutsu.
pub open spec fn split_koutsu(tiles: Seq<Hai>, d: Shape) -> Seq<Shape>
    decreases tiles.len(), 0int,
{
    if tiles.len() >= 3 && tiles[1] == tiles[0] && tiles[2] == tiles[0] {
        split_spec(tiles.subrange(3, tiles.len() as int), d.push_mentsu(Mentsu::Koutsu(tiles[0])))
    } else {
        Seq::empty()
    }
}

/// The decompositions in which the smallest tile is the low end of a taatsu
/// or of a juntsu: with the tile one rank above where the hand holds it, and
/// then also with the two above as a juntsu; else with the tile two ranks above.
pub open spec fn split_sequence(tiles: Seq<Hai>, d: Shape) -> Seq<Shape>
    decreases tiles.len(), 0int,
{
    if tiles.len() < 2 {
        Seq::empty()
    } else {
        let t = tiles[0];
        let rest = tiles.drop_first();
        match t.next_spec() {
            Some(t1) => {
                let after_t1 = remove_once_spec(rest, t1);
                if first_index(rest, t1) < rest.len() {
                    let as_taatsu = split_spec(after_t1, d.push_taatsu(t, t1));
                    let as_juntsu = match t1.next_spec() {
                        Some(t2) => if first_index(after_t1, t2) < after_t1.len() {
                            split_spec(
                                remove_once_spec(after_t1, t2),
                                d.push_mentsu(Mentsu::Juntsu(t, t1, t2)),
                            )
                        } else {
                            Seq::empty()
                        },
                        None => Seq::empty(),
                    };
                    as_taatsu + as_juntsu
                } else {
                    match t1.next_spec() {
                        Some(t2) => if first_index(rest, t2) < rest.len() {
                            split_spec(remove_once_spec(rest, t2), d.push_taatsu(t, t2))
                        } else {
                            Seq::empty()
                        },
                        None => Seq::empty(),
                    }
                }
            },
            None => Seq::empty(),
        }
    }
}

/// The decompositions in which the smallest tile is an ukihai.
pub open spec fn split_ukihai(tiles: Seq<Hai>, d: Shape) -> Seq<Shape>
    decreases tiles.len(), 0int,
{
    if tiles.len() >= 1 {
        split_spec(tiles.drop_first(), d.push_invalid(tiles[0]))
    } else {
        Seq::empty()
    }
}

/// Every decomposition of `tiles` for the mentsute form, on top of the blocks
/// of `d`. The smallest remaining tile is taken, in this order, as half of a
/// toitsu, as a third of a koutsu, as the low end of a taatsu or of a juntsu,
/// and as an ukihai; each choice is followed through on the remaining tiles.
/// A single tile left over is an ukihai.
pub open spec fn split_spec(tiles: Seq<Hai>, d: Shape) -> Seq<Shape>
    decreases tiles.len(), 1int,
{
    if tiles.len() == 0 {
        seq![d]
    } else if tiles.len() == 1 {
        seq![d.push_invalid(tiles[0])]
    } else {
        split_toitsu(tiles, d) + split_koutsu(tiles, d) + split_sequence(tiles, d) + split_ukihai(
            tiles,
            d,
        )
    }
}

/// `r` holds the blocks of `d` and `k` tiles more, in the same form, with the
/// same useful ukihai, and with well-formed taatsu and mentsu if those of `d` are.
pub open spec fn extends(r: Shape, d: Shape, k: int) -> bool {
    &&& r.tile_count() == d.tile_count() + k
    &&& r.hourakei == d.hourakei
    &&& r.valid_ukihai == d.valid_ukihai
    &&& d.all_taatsu_ok() ==> r.all_taatsu_ok()
    &&& d.all_mentsu_ok() ==> r.all_mentsu_ok()
}

pub open spec fn all_extend(res: Seq<Shape>, d: Shape, k: int) -> bool {
    forall|i: int| 0 <= i < res.len() ==> extends(#[trigger] res[i], d, k)
}

proof fn lemma_remove_once_len(s: Seq<Hai>, x: Hai)
    requires
        first_index(s, x) < s.len(),
    ensures
        remove_once_spec(s, x).len() == s.len() - 1,
{
    lemma_first_index_range(s, x);
}

proof fn lemma_first_index_range(s: Seq<Hai>, x: Hai)
    ensures
        0 <= first_index(s, x) <= s.len(),
    decreases s.len(),
{
    if s.len() > 0 && s[0] != x {
        lemma_first_index_range(s.drop_first(), x);
    }
}

proof fn lemma_split_toitsu_extends(tiles: Seq<Hai>, d: Shape)
    ensures
        all_extend(split_toitsu(tiles, d), d, tiles.len() as int),
    decreases tiles.len(), 0int,
{
    if tiles.len() >= 2 && tiles[1] == tiles[0] {
        let d1 = d.push_toitsu(tiles[0]);
        lemma_split_extends(tiles.subrange(2, tiles.len() as int), d1);
        assert(d.all_taatsu_ok() ==> d1.all_taatsu_ok());
        assert(d.all_mentsu_ok() ==> d1.all_mentsu_ok());
    }
}

proof fn lemma_split_koutsu_extends(tiles: Seq<Hai>, d: Shape)
    ensures
        all_extend(split_koutsu(tiles, d), d, tiles.len() as int),
    decreases tiles.len(), 0int,
{
    if tiles.len() >= 3 && tiles[1] == tiles[0] && tiles[2] == tiles[0] {
        let d1 = d.push_mentsu(Mentsu::Koutsu(tiles[0]));
        lemma_split_extends(tiles.subrange(3, tiles.len() as int), d1);
        lemma_push_mentsu_ok(d, Mentsu::Koutsu(tiles[0]));
    }
}

proof fn lemma_split_ukihai_extends(tiles: Seq<Hai>, d: Shape)
    ensures
        all_extend(split_ukihai(tiles, d), d, tiles.len() as int),
    decreases tiles.len(), 0int,
{
    if tiles.len() >= 1 {
        let d1 = d.push_invalid(tiles[0]);
        lemma_split_extends(tiles.drop_first(), d1);
        assert(d.all_taatsu_ok() ==> d1.all_taatsu_ok());
        assert(d.all_mentsu_ok() ==> d1.all_mentsu_ok());
    }
}

proof fn lemma_push_mentsu_ok(d: Shape, m: Mentsu)
    requires
        mentsu_ok(m),
    ensures
        d.all_mentsu_ok() ==> d.push_mentsu(m).all_mentsu_ok(),
        d.all_taatsu_ok() ==> d.push_mentsu(m).all_taatsu_ok(),
{
    let d1 = d.push_mentsu(m);
    if d.all_mentsu_ok() {
        assert forall|i: int| 0 <= i < d1.mentsu.len() implies mentsu_ok(#[trigger] d1.mentsu[i]) by {
            if i < d.mentsu.len() {
                assert(d1.mentsu[i] == d.mentsu[i]);
            }
        }
    }
}

proof fn lemma_push_taatsu_ok(d: Shape, a: Hai, b: Hai)
    requires
        taatsu_ok(Taatsu(a, b)),
    ensures
        d.all_taatsu_ok() ==> d.push_taatsu(a, b).all_taatsu_ok(),
        d.all_mentsu_ok() ==> d.push_taatsu(a, b).all_mentsu_ok(),
{
    let d1 = d.push_taatsu(a, b);
    assert(d.all_mentsu_ok() ==> d1.all_mentsu_ok());
    if d.all_taatsu_ok() {
        assert forall|i: int| 0 <= i < d1.taatsu.len() implies taatsu_ok(#[trigger] d1.taatsu[i]) by {
            if i < d.taatsu.len() {
                assert(d1.taatsu[i] == d.taatsu[i]);
            }
        }
    }
}

proof fn lemma_split_sequence_extends(tiles: Seq<Hai>, d: Shape)
    ensures
        all_extend(split_sequence(tiles, d), d, tiles.len() as int),
    decreases tiles.len(), 0int,
{
    if tiles.len() >= 2 {
        let t = tiles[0];
        let rest = tiles.drop_first();
        match t.next_spec() {
            Some(t1) => {
                let after_t1 = remove_once_spec(rest, t1);
                if first_index(rest, t1) < rest.len() {
                    lemma_remove_once_len(rest, t1);
                    let d1 = d.push_taatsu(t, t1);
                    lemma_push_taatsu_ok(d, t, t1);
                    lemma_split_extends(after_t1, d1);
                    let as_taatsu = split_spec(after_t1, d1);
                    assert(all_extend(as_taatsu, d, tiles.len() as int));
                    match t1.next_spec() {
                        Some(t2) => {
                            if first_index(after_t1, t2) < after_t1.len() {
                                lemma_remove_once_len(after_t1, t2);
                                let d2 = d.push_mentsu(Mentsu::Juntsu(t, t1, t2));
                                lemma_split_extends(remove_once_spec(after_t1, t2), d2);
                                lemma_push_mentsu_ok(d, Mentsu::Juntsu(t, t1, t2));
                                assert(all_extend(
                                    split_spec(remove_once_spec(after_t1, t2), d2),
                                    d,
                                    tiles.len() as int,
                                ));
                            }
                        },
                        None => {},
                    }
                } else {
                    match t1.next_spec() {
                        Some(t2) => {
                            if first_index(rest, t2) < rest.len() {
                                lemma_remove_once_len(rest, t2);
                                let d1 = d.push_taatsu(t, t2);
                                lemma_push_taatsu_ok(d, t, t2);
                                lemma_split_extends(remove_once_spec(rest, t2), d1);
                            }
                        },
                        None => {},
                    }
                }
            },
            None => {},
        }
    }
}

/// Every decomposition that the search yields holds all the tiles it was
/// given, on top of the blocks it started from.
pub proof fn lemma_split_extends(tiles: Seq<Hai>, d: Shape)
    ensures
        all_extend(split_spec(tiles, d), d, tiles.len() as int),
        split_spec(tiles, d).len() >= 1,
    decreases tiles.len(), 1int,
{
    if tiles.len() == 0 {
    } else if tiles.len() == 1 {
        let d1 = d.push_invalid(tiles[0]);
        assert(d.all_taatsu_ok() ==> d1.all_taatsu_ok());
        assert(d.all_mentsu_ok() ==> d1.all_mentsu_ok());
    } else {
        lemma_split_toitsu_extends(tiles, d);
        lemma_split_koutsu_extends(tiles, d);
        lemma_split_sequence_extends(tiles, d);
        lemma_split_ukihai_extends(tiles, d);
        lemma_split_extends(tiles.drop_first(), d.push_invalid(tiles[0]));
    }
}

/// The shapes of a sequence of decomposers.
pub open spec fn shapes(s: Seq<Decomposer>) -> Seq<Shape> {
    Seq::new(s.len(), |i: int| s[i]@)
}

pub proof fn lemma_shapes_push(s: Seq<Decomposer>, d: Decomposer)
    ensures
        shapes(s.push(d)) == shapes(s).push(d@),
{
    assert(shapes(s.push(d)) =~= shapes(s).push(d@));
}

/// Whether some decomposer of `v` holds the same as `d`.
pub fn contains_shape(v: &Vec<Decomposer>, d: &Decomposer) -> (r: bool)
    ensures
        r == shapes(v@).contains(d@),
{
    let mut i: usize = 0;
    while i < v.len()
        invariant
            i <= v.len(),
            forall|j: int| 0 <= j < i ==> shapes(v@)[j] != d@,
        decreases v.len() - i,
    {
        if v[i].same_as(d) {
            proof {
                assert(shapes(v@)[i as int] == d@);
            }
            return true;
        }
        i += 1;
    }
    false
}

/// Add to `out` the decompositions in which the smallest tile starts a taatsu or a juntsu.
fn split_sequence_tiles(tiles: &Vec<Hai>, decomposer: &Decomposer, out: &mut Vec<Decomposer>)
    requires
        tiles@.len() >= 2,
    ensures
        shapes(final(out)@) == shapes(old(out)@) + split_sequence(tiles@, decomposer@),
    decreases tiles@.len(), 0int,
{
    let ghost out0 = shapes(out@);
    let current: Hai = tiles[0];
    let rest: Vec<Hai> = tail_from(tiles, 1);
    proof {
        assert(rest@ =~= tiles@.drop_first());
    }
    match current.next() {
        Some(plus_one) => {
            let plus_two: Option<Hai> = plus_one.next();
            let at_one: usize = find_first(&rest, &plus_one);
            if at_one < rest.len() {
                let mut after_one: Vec<Hai> = copy_vec(&rest);
                remove_once(&mut after_one, &plus_one);
                let mut d = decomposer.duplicate();
                d.taatsu_vec.push(Taatsu(current, plus_one));
                split_tiles(&after_one, d, out);
                let ghost out1 = shapes(out@);
                match plus_two {
                    Some(plus_two) => {
                        let at_two: usize = find_first(&after_one, &plus_two);
                        if at_two < after_one.len() {
                            let mut after_two: Vec<Hai> = copy_vec(&after_one);
                            remove_once(&mut after_two, &plus_two);
                            let mut d = decomposer.duplicate();
                            d.mentsu_vec.push(Mentsu::Juntsu(current, plus_one, plus_two));
                            split_tiles(&after_two, d, out);
                        } else {
                            proof {
                                assert(out1 + Seq::<Shape>::empty() =~= out1);
                            }
                        }
                    },
                    None => {
                        proof {
                            assert(out1 + Seq::<Shape>::empty() =~= out1);
                        }
                    },
                }
                proof {
                    assert(shapes(out@) =~= out0 + split_sequence(tiles@, decomposer@));
                }
            } else {
                match plus_two {
                    Some(plus_two) => {
                        let at_two: usize = find_first(&rest, &plus_two);
                        if at_two < rest.len() {
                            let mut after_two: Vec<Hai> = copy_vec(&rest);
                            remove_once(&mut after_two, &plus_two);
                            let mut d = decomposer.duplicate();
                            d.taatsu_vec.push(Taatsu(current, plus_two));
                            split_tiles(&after_two, d, out);
                        } else {
                            proof {
                                assert(out0 + Seq::<Shape>::empty() =~= out0);
                            }
                        }
                    },
                    None => {
                        proof {
                            assert(out0 + Seq::<Shape>::empty() =~= out0);
                        }
                    },
                }
            }
        },
        None => {
            proof {
                assert(out0 + Seq::<Shape>::empty() =~= out0);
            }
        },
    }
}

/// Add to `out` the decompositions in which the smallest tile is half of a toitsu.
fn split_toitsu_tiles(tiles: &Vec<Hai>, decomposer: &Decomposer, out: &mut Vec<Decomposer>)
    requires
        tiles@.len() >= 2,
    ensures
        shapes(final(out)@) == shapes(old(out)@) + split_toitsu(tiles@, decomposer@),
    decreases tiles@.len(), 0int,
{
    let ghost out0 = shapes(out@);
    if tiles[0] == tiles[1] {
        let mut d = decomposer.duplicate();
        d.toitsu_vec.push(Toitsu(tiles[0]));
        let remaining: Vec<Hai> = tail_from(tiles, 2);
        split_tiles(&remaining, d, out);
    } else {
        proof {
            assert(out0 + Seq::<Shape>::empty() =~= out0);
        }
    }
}

/// Add to `out` the decompositions in which the smallest tile is a third of a koutsu.
fn split_koutsu_tiles(tiles: &Vec<Hai>, decomposer: &Decomposer, out: &mut Vec<Decomposer>)
    requires
        tiles@.len() >= 2,
    ensures
        shapes(final(out)@) == shapes(old(out)@) + split_koutsu(tiles@, decomposer@),
    decreases tiles@.len(), 0int,
{
    let ghost out0 = shapes(out@);
    if tiles.len() >= 3 && tiles[0] == tiles[1] && tiles[0] == tiles[2] {
        let mut d = decomposer.duplicate();
        d.mentsu_vec.push(Mentsu::Koutsu(tiles[0]));
        let remaining: Vec<Hai> = tail_from(tiles, 3);
        split_tiles(&remaining, d, out);
    } else {
        proof {
            assert(out0 + Seq::<Shape>::empty() =~= out0);
        }
    }
}

/// Add to `out` the decompositions in which the smallest tile is an ukihai.
fn split_ukihai_tiles(tiles: &Vec<Hai>, decomposer: &Decomposer, out: &mut Vec<Decomposer>)
    requires
        tiles@.len() >= 2,
    ensures
        shapes(final(out)@) == shapes(old(out)@) + split_ukihai(tiles@, decomposer@),
    decreases tiles@.len(), 0int,
{
    let rest: Vec<Hai> = tail_from(tiles, 1);
    proof {
        assert(rest@ =~= tiles@.drop_first());
    }
    let mut d = decomposer.duplicate();
    d.invalid_ukihai_vec.push(Ukihai(tiles[0]));
    split_tiles(&rest, d, out);
}

/// Add to `out` every decomposition of `tiles` on top of the blocks of `decomposer`.
pub fn split_tiles(tiles: &Vec<Hai>, decomposer: Decomposer, out: &mut Vec<Decomposer>)
    ensures
        shapes(final(out)@) == shapes(old(out)@) + split_spec(tiles@, decomposer@),
    decreases tiles@.len(), 1int,
{
    let ghost out0 = shapes(out@);
    let ghost d0 = decomposer@;
    let n: usize = tiles.len();
    if n == 0 {
        proof {
            lemma_shapes_push(out@, decomposer);
        }
        out.push(decomposer);
        proof {
            assert(out0.push(d0) =~= out0 + seq![d0]);
        }
    } else if n == 1 {
        let mut d = decomposer;
        d.invalid_ukihai_vec.push(Ukihai(tiles[0]));
        proof {
            lemma_shapes_push(out@, d);
        }
        out.push(d);
        proof {
            assert(out0.push(d@) =~= out0 + seq![d0.push_invalid(tiles@[0])]);
        }
    } else {
        split_toitsu_tiles(tiles, &decomposer, out);
        let ghost a = split_toitsu(tiles@, d0);
        split_koutsu_tiles(tiles, &decomposer, out);
        let ghost b = split_koutsu(tiles@, d0);
        split_sequence_tiles(tiles, &decomposer, out);
        let ghost c = split_sequence(tiles@, d0);
        split_ukihai_tiles(tiles, &decomposer, out);
        let ghost e = split_ukihai(tiles@, d0);
        proof {
            assert(out0 + a + b + c + e =~= out0 + (a + b + c + e));
        }
    }
}

} // verus!
