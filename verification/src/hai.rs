use vstd::prelude::*;

verus! {

/// One tile.
///
/// # Japanese
/// * Hai: 牌
/// * Manzu: 萬子, Pinzu: 筒子, Souzu: 索子 (ranks 1 to 9)
/// * Jihai: 字牌 (kinds 1 to 7)
#[derive(Copy, Clone, Debug, PartialEq, Eq, Structural, Hash, PartialOrd, Ord)]
pub enum Hai {
    Manzu(u8),
    Pinzu(u8),
    Souzu(u8),
    Jihai(u8),
}

/// Number of distinct valid tiles.
pub const HAI_TYPES: usize = 34;

impl Hai {
    /// The rank of a suited tile, or the kind of an honor.
    pub open spec fn number(self) -> int {
        match self {
            Hai::Manzu(n) => n as int,
            Hai::Pinzu(n) => n as int,
            Hai::Souzu(n) => n as int,
            Hai::Jihai(n) => n as int,
        }
    }

    /// 0, 1, 2 for the three suits and 3 for honors.
    pub open spec fn category(self) -> int {
        match self {
            Hai::Manzu(_) => 0,
            Hai::Pinzu(_) => 1,
            Hai::Souzu(_) => 2,
            Hai::Jihai(_) => 3,
        }
    }

    pub open spec fn is_jihai_spec(self) -> bool {
        self is Jihai
    }

    /// Ranks 1 to 9 in a suit, kinds 1 to 7 among the honors.
    pub open spec fn is_valid_spec(self) -> bool {
        1 <= self.number() && self.number() <= (if self is Jihai { 7int } else { 9int })
    }

    /// The total order of tiles: category first, then number.
    pub open spec fn order_key(self) -> int {
        self.category() * 256 + self.number()
    }

    /// Position of a valid tile among the 34 tile types, in ascending order.
    pub open spec fn index(self) -> int {
        self.category() * 9 + self.number() - 1
    }

    /// The tile type at a position below 34.
    pub open spec fn at_index(i: int) -> Hai {
        if i < 9 {
            Hai::Manzu((i + 1) as u8)
        } else if i < 18 {
            Hai::Pinzu((i - 8) as u8)
        } else if i < 27 {
            Hai::Souzu((i - 17) as u8)
        } else {
            Hai::Jihai((i - 26) as u8)
        }
    }

    /// The tile one rank above, within a suit; none above rank 9 and none for honors.
    pub open spec fn next_spec(self) -> Option<Hai> {
        if !self.is_valid_spec() || self.number() >= 9 {
            None
        } else {
            match self {
                Hai::Manzu(n) => Some(Hai::Manzu((n + 1) as u8)),
                Hai::Pinzu(n) => Some(Hai::Pinzu((n + 1) as u8)),
                Hai::Souzu(n) => Some(Hai::Souzu((n + 1) as u8)),
                Hai::Jihai(_) => None,
            }
        }
    }

    /// The tile one rank below, within a suit; none below rank 1 and none for honors.
    pub open spec fn previous_spec(self) -> Option<Hai> {
        if !self.is_valid_spec() || self.number() <= 1 {
            None
        } else {
            match self {
                Hai::Manzu(n) => Some(Hai::Manzu((n - 1) as u8)),
                Hai::Pinzu(n) => Some(Hai::Pinzu((n - 1) as u8)),
                Hai::Souzu(n) => Some(Hai::Souzu((n - 1) as u8)),
                Hai::Jihai(_) => None,
            }
        }
    }

    /// Terminals (rank 1 or 9 of a suit) and honors.
    pub open spec fn is_yaochuupai_spec(self) -> bool {
        self.is_valid_spec() && (self is Jihai || self.number() == 1 || self.number() == 9)
    }

    pub fn number_of(&self) -> (n: u8)
        ensures
            n as int == self.number(),
    {
        match *self {
            Hai::Manzu(n) => n,
            Hai::Pinzu(n) => n,
            Hai::Souzu(n) => n,
            Hai::Jihai(n) => n,
        }
    }

    pub fn is_jihai(&self) -> (b: bool)
        ensures
            b == self.is_jihai_spec(),
    {
        match *self {
            Hai::Jihai(_) => true,
            _ => false,
        }
    }

    pub fn is_valid(&self) -> (b: bool)
        ensures
            b == self.is_valid_spec(),
    {
        match *self {
            Hai::Jihai(n) => 1 <= n && n <= 7,
            Hai::Manzu(n) => 1 <= n && n <= 9,
            Hai::Pinzu(n) => 1 <= n && n <= 9,
            Hai::Souzu(n) => 1 <= n && n <= 9,
        }
    }

    pub fn is_yaochuupai(&self) -> (b: bool)
        ensures
            b == self.is_yaochuupai_spec(),
    {
        let n: u8 = self.number_of();
        self.is_valid() && (self.is_jihai() || n == 1 || n == 9)
    }

    /// Whether `self` sorts strictly before `other`.
    pub fn lt(&self, other: &Hai) -> (b: bool)
        ensures
            b == (self.order_key() < other.order_key()),
    {
        let a: usize = self.category_of();
        let b: usize = other.category_of();
        a < b || (a == b && self.number_of() < other.number_of())
    }

    pub fn category_of(&self) -> (c: usize)
        ensures
            c as int == self.category(),
    {
        match *self {
            Hai::Manzu(_) => 0,
            Hai::Pinzu(_) => 1,
            Hai::Souzu(_) => 2,
            Hai::Jihai(_) => 3,
        }
    }

    pub fn next(&self) -> (r: Option<Hai>)
        ensures
            r == self.next_spec(),
    {
        if !self.is_valid() {
            return None;
        }
        match *self {
            Hai::Manzu(n) => if n < 9 { Some(Hai::Manzu(n + 1)) } else { None },
            Hai::Pinzu(n) => if n < 9 { Some(Hai::Pinzu(n + 1)) } else { None },
            Hai::Souzu(n) => if n < 9 { Some(Hai::Souzu(n + 1)) } else { None },
            Hai::Jihai(_) => None,
        }
    }

    pub fn previous(&self) -> (r: Option<Hai>)
        ensures
            r == self.previous_spec(),
    {
        if !self.is_valid() {
            return None;
        }
        match *self {
            Hai::Manzu(n) => if n > 1 { Some(Hai::Manzu(n - 1)) } else { None },
            Hai::Pinzu(n) => if n > 1 { Some(Hai::Pinzu(n - 1)) } else { None },
            Hai::Souzu(n) => if n > 1 { Some(Hai::Souzu(n - 1)) } else { None },
            Hai::Jihai(_) => None,
        }
    }

    /// Position of a valid tile among the 34 tile types.
    pub fn to_index(&self) -> (i: usize)
        requires
            self.is_valid_spec(),
        ensures
            i as int == self.index(),
            i < HAI_TYPES,
            Hai::at_index(i as int) == *self,
    {
        let n: usize = self.number_of() as usize;
        self.category_of() * 9 + n - 1
    }

    /// The tile type at position `i`.
    pub fn from_index(i: usize) -> (h: Hai)
        requires
            i < HAI_TYPES,
        ensures
            h == Hai::at_index(i as int),
            h.is_valid_spec(),
            h.index() == i as int,
    {
        if i < 9 {
            Hai::Manzu((i + 1) as u8)
        } else if i < 18 {
            Hai::Pinzu((i - 8) as u8)
        } else if i < 27 {
            Hai::Souzu((i - 17) as u8)
        } else {
            Hai::Jihai((i - 26) as u8)
        }
    }

    /// The thirteen terminal and honor tile types, ascending.
    pub fn yaochuupai_type() -> (v: Vec<Hai>)
        ensures
            v@.len() == 13,
            forall|i: int| 0 <= i < 13 ==> (#[trigger] v@[i]).is_yaochuupai_spec(),
            forall|i: int, j: int| 0 <= i < j < 13 ==> v@[i].order_key() < v@[j].order_key(),
            forall|h: Hai| h.is_yaochuupai_spec() ==> v@.contains(h),
    {
        let v: Vec<Hai> = vec![
            Hai::Manzu(1),
            Hai::Manzu(9),
            Hai::Pinzu(1),
            Hai::Pinzu(9),
            Hai::Souzu(1),
            Hai::Souzu(9),
            Hai::Jihai(1),
            Hai::Jihai(2),
            Hai::Jihai(3),
            Hai::Jihai(4),
            Hai::Jihai(5),
            Hai::Jihai(6),
            Hai::Jihai(7),
        ];
        proof {
            assert forall|h: Hai| h.is_yaochuupai_spec() implies v@.contains(h) by {
                let k: int = match h {
                    Hai::Manzu(n) => if n == 1 { 0int } else { 1int },
                    Hai::Pinzu(n) => if n == 1 { 2int } else { 3int },
                    Hai::Souzu(n) => if n == 1 { 4int } else { 5int },
                    Hai::Jihai(n) => 5 + n,
                };
                assert(v@[k] == h);
            }
        }
        v
    }
}

/// Valid tiles are told apart by their position, and positions follow the tile order.
pub proof fn lemma_index_order(a: Hai, b: Hai)
    requires
        a.is_valid_spec(),
        b.is_valid_spec(),
    ensures
        0 <= a.index() < 34,
        Hai::at_index(a.index()) == a,
        (a.index() == b.index()) == (a == b),
        (a.index() < b.index()) == (a.order_key() < b.order_key()),
{
}

} // verus!
