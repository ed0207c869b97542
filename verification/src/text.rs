use vstd::prelude::*;
use vstd::string::*;
use crate::hai::{Hai, HAI_TYPES};
use crate::block::{Mentsu, Taatsu, Toitsu, Ukihai};
use crate::count::sum_of;
use crate::machi::MachiCondition;
use crate::tehai::Tehai;

verus! {

/// The character of a digit below 10.
pub open spec fn digit_char(d: int) -> char {
    if d == 0 {
        '0'
    } else if d == 1 {
        '1'
    } else if d == 2 {
        '2'
    } else if d == 3 {
        '3'
    } else if d == 4 {
        '4'
    } else if d == 5 {
        '5'
    } else if d == 6 {
        '6'
    } else if d == 7 {
        '7'
    } else if d == 8 {
        '8'
    } else {
        '9'
    }
}

/// A number in decimal digits.
pub open spec fn decimal(n: nat) -> Seq<char>
    decreases n,
{
    if n < 10 {
        seq![digit_char(n as int)]
    } else {
        decimal(n / 10).push(digit_char((n % 10) as int))
    }
}

/// The letter of the category of a tile.
pub open spec fn type_char(h: Hai) -> char {
    match h {
        Hai::Manzu(_) => 'm',
        Hai::Pinzu(_) => 'p',
        Hai::Souzu(_) => 's',
        Hai::Jihai(_) => 'z',
    }
}

/// A tile as text: its number and the letter of its category.
pub open spec fn hai_text(h: Hai) -> Seq<char> {
    decimal(h.number() as nat).push(type_char(h))
}

/// Tiles as text, one after the other.
pub open spec fn hais_text(s: Seq<Hai>) -> Seq<char>
    decreases s.len(),
{
    if s.len() == 0 {
        Seq::empty()
    } else {
        hais_text(s.drop_last()) + hai_text(s.last())
    }
}

/// A mentsu as text: its tiles in square brackets.
pub open spec fn mentsu_text(m: Mentsu) -> Seq<char> {
    seq!['['] + hais_text(m.tiles()) + seq![']']
}

pub open spec fn fuuro_text(f: Seq<Mentsu>) -> Seq<char>
    decreases f.len(),
{
    if f.len() == 0 {
        Seq::empty()
    } else {
        fuuro_text(f.drop_last()) + mentsu_text(f.last())
    }
}

/// A hand as text: the juntehai, then each fuuro.
pub open spec fn tehai_text(t: Tehai) -> Seq<char> {
    hais_text(t.juntehai@) + fuuro_text(t.fuuro@)
}

/// The first `k` tile types that a table waits for, each followed by a space.
pub open spec fn machihai_text(table: Seq<u8>, k: int) -> Seq<char>
    decreases k,
{
    if k <= 0 {
        Seq::empty()
    } else if table[k - 1] > 0 {
        machihai_text(table, k - 1) + hai_text(Hai::at_index(k - 1)) + seq![' ']
    } else {
        machihai_text(table, k - 1)
    }
}

/// A condition as text: the sutehai, the machihai, and how many tiles they are.
pub open spec fn condition_text(c: MachiCondition) -> Seq<char> {
    "打 "@ + hai_text(c.sutehai) + " 摸 "@ + machihai_text(c.machihai@, HAI_TYPES as int) + " 共"@
        + decimal(sum_of(c.machihai@) as nat) + "枚"@ + if c.furiten {
        "!振り聴!"@
    } else {
        Seq::empty()
    }
}

/// Appends one character to a string by `String::push`, which puts the
/// character at the end and leaves the rest as it was.
#[verifier::external_body]
pub(crate) fn push_char(s: &mut String, c: char)
    ensures
        final(s)@ == old(s)@.push(c),
{
    s.push(c);
}

fn push_digit(s: &mut String, d: usize)
    requires
        d < 10,
    ensures
        final(s)@ == old(s)@.push(digit_char(d as int)),
{
    let c: char = if d == 0 {
        '0'
    } else if d == 1 {
        '1'
    } else if d == 2 {
        '2'
    } else if d == 3 {
        '3'
    } else if d == 4 {
        '4'
    } else if d == 5 {
        '5'
    } else if d == 6 {
        '6'
    } else if d == 7 {
        '7'
    } else if d == 8 {
        '8'
    } else {
        '9'
    };
    push_char(s, c);
}

/// Append a number in decimal digits.
pub fn push_decimal(s: &mut String, n: usize)
    ensures
        final(s)@ == old(s)@ + decimal(n as nat),
    decreases n,
{
    if n < 10 {
        push_digit(s, n);
        proof {
            assert(s@ =~= old(s)@ + decimal(n as nat));
        }
    } else {
        push_decimal(s, n / 10);
        push_digit(s, n % 10);
        proof {
            assert(s@ =~= old(s)@ + decimal(n as nat));
        }
    }
}

/// Append a tile as text.
pub fn push_hai(s: &mut String, h: &Hai)
    ensures
        final(s)@ == old(s)@ + hai_text(*h),
{
    push_decimal(s, h.number_of() as usize);
    let c: char = match *h {
        Hai::Manzu(_) => 'm',
        Hai::Pinzu(_) => 'p',
        Hai::Souzu(_) => 's',
        Hai::Jihai(_) => 'z',
    };
    push_char(s, c);
    proof {
        assert(s@ =~= old(s)@ + hai_text(*h));
    }
}

/// Append a mentsu as text.
pub fn push_mentsu(s: &mut String, m: &Mentsu)
    ensures
        final(s)@ == old(s)@ + mentsu_text(*m),
{
    push_char(s, '[');
    let ghost s0 = old(s)@.push('[');
    match *m {
        Mentsu::Juntsu(a, b, c) => {
            push_hai(s, &a);
            push_hai(s, &b);
            push_hai(s, &c);
            proof {
                lemma_hais_text3(a, b, c);
            }
        },
        Mentsu::Koutsu(a) => {
            push_hai(s, &a);
            push_hai(s, &a);
            push_hai(s, &a);
            proof {
                lemma_hais_text3(a, a, a);
            }
        },
        Mentsu::Kantsu(a) => {
            push_hai(s, &a);
            push_hai(s, &a);
            push_hai(s, &a);
            push_hai(s, &a);
            proof {
                lemma_hais_text3(a, a, a);
                assert(seq![a, a, a, a].drop_last() =~= seq![a, a, a]);
                assert(s@ =~= s0 + hais_text(seq![a, a, a, a]));
            }
        },
    }
    proof {
        assert(s@ =~= s0 + hais_text(m.tiles()));
    }
    push_char(s, ']');
    proof {
        assert(s@ =~= old(s)@ + mentsu_text(*m));
    }
}

proof fn lemma_hais_text3(a: Hai, b: Hai, c: Hai)
    ensures
        hais_text(seq![a, b, c]) == hai_text(a) + hai_text(b) + hai_text(c),
{
    let s3 = seq![a, b, c];
    let s2 = seq![a, b];
    let s1 = seq![a];
    assert(s3.drop_last() =~= s2);
    assert(s2.drop_last() =~= s1);
    assert(s1.drop_last() =~= Seq::<Hai>::empty());
    assert(hais_text(Seq::<Hai>::empty()) =~= Seq::<char>::empty());
    assert(hais_text(s1) =~= hai_text(a));
    assert(hais_text(s2) =~= hai_text(a) + hai_text(b));
    assert(hais_text(s3) =~= hai_text(a) + hai_text(b) + hai_text(c));
}

impl Hai {
    /// The tile as text, such as `5p`.
    pub fn to_string(&self) -> (r: String)
        ensures
            r@ == hai_text(*self),
    {
        let mut r: String = String::new();
        push_hai(&mut r, self);
        proof {
            assert(r@ =~= hai_text(*self));
        }
        r
    }
}

impl Mentsu {
    /// The mentsu as text, such as `[1z1z1z]`.
    pub fn to_string(&self) -> (r: String)
        ensures
            r@ == mentsu_text(*self),
    {
        let mut r: String = String::new();
        push_mentsu(&mut r, self);
        proof {
            assert(r@ =~= mentsu_text(*self));
        }
        r
    }
}

impl Taatsu {
    /// The two tiles as text.
    pub fn to_string(&self) -> (r: String)
        ensures
            r@ == hai_text(self.0) + hai_text(self.1),
    {
        let mut r: String = String::new();
        push_hai(&mut r, &self.0);
        push_hai(&mut r, &self.1);
        proof {
            assert(r@ =~= hai_text(self.0) + hai_text(self.1));
        }
        r
    }
}

impl Toitsu {
    /// The tile as text, twice.
    pub fn to_string(&self) -> (r: String)
        ensures
            r@ == hai_text(self.0) + hai_text(self.0),
    {
        let mut r: String = String::new();
        push_hai(&mut r, &self.0);
        push_hai(&mut r, &self.0);
        proof {
            assert(r@ =~= hai_text(self.0) + hai_text(self.0));
        }
        r
    }
}

impl Ukihai {
    /// The tile as text.
    pub fn to_string(&self) -> (r: String)
        ensures
            r@ == hai_text(self.0),
    {
        self.0.to_string()
    }
}

impl Tehai {
    /// The hand as text, such as `1m2m3m4p4p[1z1z1z]`.
    pub fn to_string(&self) -> (r: String)
        ensures
            r@ == tehai_text(*self),
    {
        let mut r: String = String::new();
        let mut i: usize = 0;
        while i < self.juntehai.len()
            invariant
                i <= self.juntehai.len(),
                r@ == hais_text(self.juntehai@.take(i as int)),
            decreases self.juntehai.len() - i,
        {
            proof {
                assert(self.juntehai@.take(i + 1).drop_last() =~= self.juntehai@.take(i as int));
            }
            push_hai(&mut r, &self.juntehai[i]);
            i += 1;
        }
        proof {
            assert(self.juntehai@.take(self.juntehai@.len() as int) =~= self.juntehai@);
            assert(r@ =~= hais_text(self.juntehai@) + fuuro_text(self.fuuro@.take(0)));
        }
        let mut k: usize = 0;
        while k < self.fuuro.len()
            invariant
                k <= self.fuuro.len(),
                r@ == hais_text(self.juntehai@) + fuuro_text(self.fuuro@.take(k as int)),
            decreases self.fuuro.len() - k,
        {
            proof {
                assert(self.fuuro@.take(k + 1).drop_last() =~= self.fuuro@.take(k as int));
            }
            let ghost before = r@;
            push_mentsu(&mut r, &self.fuuro[k]);
            proof {
                assert(r@ =~= hais_text(self.juntehai@) + fuuro_text(self.fuuro@.take(k + 1)));
            }
            k += 1;
        }
        proof {
            assert(self.fuuro@.take(self.fuuro@.len() as int) =~= self.fuuro@);
        }
        r
    }
}

impl MachiCondition {
    /// The condition as text: sutehai, machihai and their number.
    pub fn to_string(&self) -> (r: String)
        requires
            self.wf(),
        ensures
            r@ == condition_text(*self),
    {
        let mut r: String = String::from_str("打 ");
        push_hai(&mut r, &self.sutehai);
        r.append(" 摸 ");
        let ghost head = r@;
        let mut k: usize = 0;
        proof {
            assert(r@ =~= head + machihai_text(self.machihai@, 0));
        }
        while k < HAI_TYPES
            invariant
                k <= HAI_TYPES,
                self.wf(),
                r@ == head + machihai_text(self.machihai@, k as int),
            decreases HAI_TYPES - k,
        {
            if self.machihai[k] > 0 {
                let hai: Hai = Hai::from_index(k);
                push_hai(&mut r, &hai);
                push_char(&mut r, ' ');
                proof {
                    assert(r@ =~= head + machihai_text(self.machihai@, k + 1));
                }
            }
            k += 1;
        }
        r.append(" 共");
        push_decimal(&mut r, self.nokori());
        r.append("枚");
        if self.furiten {
            r.append("!振り聴!");
        }
        proof {
            assert(r@ =~= condition_text(*self));
        }
        r
    }
}

} // verus!
