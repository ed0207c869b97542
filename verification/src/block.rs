use vstd::prelude::*;
use crate::hai::Hai;

verus! {

/// Type of mentsu (meld).
///
/// # Japanese
/// * Mentsu: 面子
/// * Juntsu: 順子
/// * Koutsu: 刻子
/// * Kantsu: 槓子
#[derive(Copy, Clone, Debug, PartialEq, Eq, Structural, Hash)]
pub enum Mentsu {
    Juntsu(Hai, Hai, Hai),
    Koutsu(Hai),
    Kantsu(Hai),
}

/// Two different hai that wait for one hai to become a juntsu.
///
/// # Japanese
/// * Taatsu: 搭子
#[derive(Copy, Clone, Debug, PartialEq, Eq, Structural, Hash)]
pub struct Taatsu(pub Hai, pub Hai);

/// Two same hai.
///
/// # Japanese
/// * Toitsu: 対子
#[derive(Copy, Clone, Debug, PartialEq, Eq, Structural, Hash)]
pub struct Toitsu(pub Hai);

/// An isolated hai.
///
/// # Japanese
/// * Ukihai: 浮き牌
#[derive(Copy, Clone, Debug, PartialEq, Eq, Structural, Hash)]
pub struct Ukihai(pub Hai);

pub open spec fn min3(a: int, b: int, c: int) -> int {
    if a <= b && a <= c { a } else if b <= c { b } else { c }
}

pub open spec fn max3(a: int, b: int, c: int) -> int {
    if a >= b && a >= c { a } else if b >= c { b } else { c }
}

/// The tile of category `like` with the given number.
pub open spec fn with_number(like: Hai, n: int) -> Hai {
    match like {
        Hai::Manzu(_) => Hai::Manzu(n as u8),
        Hai::Pinzu(_) => Hai::Pinzu(n as u8),
        Hai::Souzu(_) => Hai::Souzu(n as u8),
        Hai::Jihai(_) => Hai::Jihai(n as u8),
    }
}

/// The juntsu that three tiles form in some order, if they do: one suit,
/// three consecutive ranks.
pub open spec fn juntsu_of(a: Hai, b: Hai, c: Hai) -> Option<Mentsu> {
    let lo = min3(a.number(), b.number(), c.number());
    let hi = max3(a.number(), b.number(), c.number());
    let mid = a.number() + b.number() + c.number() - lo - hi;
    if !(a is Jihai) && a.category() == b.category() && a.category() == c.category() && mid == lo
        + 1 && hi == lo + 2 {
        Some(Mentsu::Juntsu(with_number(a, lo), with_number(a, lo + 1), with_number(a, lo + 2)))
    } else {
        None
    }
}

/// The meld that a sequence of tiles forms, if it forms one.
pub open spec fn mentsu_of(s: Seq<Hai>) -> Option<Mentsu> {
    if exists|i: int| 0 <= i < s.len() && !(#[trigger] s[i]).is_valid_spec() {
        None
    } else if s.len() == 4 {
        if s[0] == s[1] && s[0] == s[2] && s[0] == s[3] {
            Some(Mentsu::Kantsu(s[0]))
        } else {
            None
        }
    } else if s.len() == 3 {
        if s[0] == s[1] && s[0] == s[2] {
            Some(Mentsu::Koutsu(s[0]))
        } else {
            juntsu_of(s[0], s[1], s[2])
        }
    } else {
        None
    }
}

/// Whether every tile of the sequence is valid.
pub fn all_valid(v: &Vec<Hai>) -> (b: bool)
    ensures
        b == (forall|i: int| 0 <= i < v@.len() ==> (#[trigger] v@[i]).is_valid_spec()),
{
    let mut i: usize = 0;
    while i < v.len()
        invariant
            i <= v.len(),
            forall|j: int| 0 <= j < i ==> (#[trigger] v@[j]).is_valid_spec(),
        decreases v.len() - i,
    {
        if !v[i].is_valid() {
            return false;
        }
        i += 1;
    }
    true
}

/// Three ranks in ascending order when they are consecutive.
fn check_juntsu(a: u8, b: u8, c: u8) -> (r: Option<(u8, u8, u8)>)
    requires
        a <= 9,
        b <= 9,
        c <= 9,
    ensures
        r == (if a + b + c - min3(a as int, b as int, c as int) - max3(a as int, b as int, c as int)
            == min3(a as int, b as int, c as int) + 1 && max3(a as int, b as int, c as int) == min3(
            a as int,
            b as int,
            c as int,
        ) + 2 {
            let lo = min3(a as int, b as int, c as int);
            Some((lo as u8, (lo + 1) as u8, (lo + 2) as u8))
        } else {
            None
        }),
{
    let mut x: u8 = a;
    let mut y: u8 = b;
    let mut z: u8 = c;
    if x > y {
        let t: u8 = x;
        x = y;
        y = t;
    }
    if x > z {
        let t: u8 = x;
        x = z;
        z = t;
    }
    if y > z {
        let t: u8 = y;
        y = z;
        z = t;
    }
    if x + 1 == y && y + 1 == z {
        Some((x, y, z))
    } else {
        None
    }
}

impl Mentsu {
    /// The tiles of the meld, in order.
    pub open spec fn tiles(self) -> Seq<Hai> {
        match self {
            Mentsu::Juntsu(a, b, c) => seq![a, b, c],
            Mentsu::Koutsu(a) => seq![a, a, a],
            Mentsu::Kantsu(a) => seq![a, a, a, a],
        }
    }

    /// A meld of valid tiles in one of the three legal shapes.
    pub open spec fn wf(self) -> bool {
        match self {
            Mentsu::Juntsu(a, b, c) => a.is_valid_spec() && !(a is Jihai) && a.next_spec() == Some(b)
                && b.next_spec() == Some(c),
            Mentsu::Koutsu(a) => a.is_valid_spec(),
            Mentsu::Kantsu(a) => a.is_valid_spec(),
        }
    }

    /// Create a mentsu from input vec of hai if they can make up a valid mentsu.
    pub fn new(hai_vec: &Vec<Hai>) -> (r: Option<Self>)
        ensures
            r == mentsu_of(hai_vec@),
            r is Some ==> r.unwrap().wf(),
    {
        if !all_valid(hai_vec) {
            None
        } else if hai_vec.len() == 4 {
            if hai_vec[0] == hai_vec[1] && hai_vec[0] == hai_vec[2] && hai_vec[0] == hai_vec[3] {
                Some(Mentsu::Kantsu(hai_vec[0]))
            } else {
                None
            }
        } else if hai_vec.len() == 3 {
            if hai_vec[0] == hai_vec[1] && hai_vec[0] == hai_vec[2] {
                Some(Mentsu::Koutsu(hai_vec[0]))
            } else {
                match (hai_vec[0], hai_vec[1], hai_vec[2]) {
                    (Hai::Manzu(a), Hai::Manzu(b), Hai::Manzu(c)) => {
                        match check_juntsu(a, b, c) {
                            Some((x, y, z)) => Some(
                                Mentsu::Juntsu(Hai::Manzu(x), Hai::Manzu(y), Hai::Manzu(z)),
                            ),
                            None => None,
                        }
                    },
                    (Hai::Pinzu(a), Hai::Pinzu(b), Hai::Pinzu(c)) => {
                        match check_juntsu(a, b, c) {
                            Some((x, y, z)) => Some(
                                Mentsu::Juntsu(Hai::Pinzu(x), Hai::Pinzu(y), Hai::Pinzu(z)),
                            ),
                            None => None,
                        }
                    },
                    (Hai::Souzu(a), Hai::Souzu(b), Hai::Souzu(c)) => {
                        match check_juntsu(a, b, c) {
                            Some((x, y, z)) => Some(
                                Mentsu::Juntsu(Hai::Souzu(x), Hai::Souzu(y), Hai::Souzu(z)),
                            ),
                            None => None,
                        }
                    },
                    _ => None,
                }
            }
        } else {
            None
        }
    }
}

} // verus!
