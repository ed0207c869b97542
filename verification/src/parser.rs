use vstd::prelude::*;
use vstd::string::*;
use crate::hai::Hai;
use crate::block::{mentsu_of, Mentsu};
use crate::count::all_valid_spec;
use crate::tehai::{all_mentsu_wf, makes, Tehai, TehaiError};

verus! {

/// What has been read of a hand in text form.
pub struct ParseState {
    pub juntehai: Seq<Hai>,
    pub fuuro: Seq<Mentsu>,
    /// Digits that wait for their type character.
    pub char_stash: Seq<char>,
    /// Tiles read since the last `[`.
    pub mentsu_stash: Seq<Hai>,
    pub in_mentsu: bool,
}

/// 1 to 9 for the digits `1` to `9`, and 0 for any other character.
pub open spec fn digit_value(c: char) -> u8 {
    if c == '1' {
        1
    } else if c == '2' {
        2
    } else if c == '3' {
        3
    } else if c == '4' {
        4
    } else if c == '5' {
        5
    } else if c == '6' {
        6
    } else if c == '7' {
        7
    } else if c == '8' {
        8
    } else if c == '9' {
        9
    } else {
        0
    }
}

pub open spec fn is_type_char(c: char) -> bool {
    c == 'm' || c == 'p' || c == 's' || c == 'z'
}

/// The tile that a digit and a type character name.
pub open spec fn hai_of(hai_type: char, digit: char) -> Hai {
    if hai_type == 'p' {
        Hai::Pinzu(digit_value(digit))
    } else if hai_type == 's' {
        Hai::Souzu(digit_value(digit))
    } else if hai_type == 'z' {
        Hai::Jihai(digit_value(digit))
    } else {
        Hai::Manzu(digit_value(digit))
    }
}

/// The tiles that stashed digits name under a type character, or the first
/// of them that is no valid tile.
pub open spec fn stash_hai(stash: Seq<char>, hai_type: char) -> Result<Seq<Hai>, Hai>
    decreases stash.len(),
{
    if stash.len() == 0 {
        Ok(Seq::empty())
    } else {
        match stash_hai(stash.drop_last(), hai_type) {
            Err(h) => Err(h),
            Ok(tiles) => {
                let h = hai_of(hai_type, stash.last());
                if h.is_valid_spec() {
                    Ok(tiles.push(h))
                } else {
                    Err(h)
                }
            },
        }
    }
}

/// Reading one character at position `index`.
///
/// Digits are stashed until a type character (`m`, `p`, `s`, `z`) turns them
/// into tiles; `[` and `]` enclose the tiles of one fuuro; spaces are skipped.
pub open spec fn parse_step(s: ParseState, index: usize, c: char) -> Result<ParseState, TehaiError> {
    if is_type_char(c) {
        if s.char_stash.len() == 0 {
            Err(TehaiError::UnusedType { hai_type: c, index })
        } else {
            match stash_hai(s.char_stash, c) {
                Err(h) => Err(TehaiError::InvalidHai(h)),
                Ok(tiles) => if s.in_mentsu {
                    Ok(
                        ParseState {
                            mentsu_stash: s.mentsu_stash + tiles,
                            char_stash: Seq::empty(),
                            ..s
                        },
                    )
                } else {
                    Ok(ParseState { juntehai: s.juntehai + tiles, char_stash: Seq::empty(), ..s })
                },
            }
        }
    } else if digit_value(c) != 0 {
        Ok(ParseState { char_stash: s.char_stash.push(c), ..s })
    } else if c == '[' {
        if s.in_mentsu {
            Err(TehaiError::SecondBracket { index })
        } else if s.char_stash.len() > 0 {
            Err(TehaiError::NeedType { found: c, index })
        } else {
            Ok(ParseState { in_mentsu: true, ..s })
        }
    } else if c == ']' {
        if !s.in_mentsu {
            Err(TehaiError::UnmatchedBracket { index })
        } else if s.char_stash.len() > 0 {
            Err(TehaiError::NeedType { found: c, index })
        } else {
            match mentsu_of(s.mentsu_stash) {
                None => Err(TehaiError::InvalidMentsu { index }),
                Some(m) => Ok(
                    ParseState {
                        fuuro: s.fuuro.push(m),
                        mentsu_stash: Seq::empty(),
                        in_mentsu: false,
                        ..s
                    },
                ),
            }
        }
    } else if c == ' ' {
        Ok(s)
    } else {
        Err(TehaiError::UnknownCharacter { chr: c, index })
    }
}

/// Reading the first `k` characters of a text, up to the first error.
pub open spec fn parse_prefix(chars: Seq<char>, k: int) -> Result<ParseState, TehaiError>
    decreases k,
{
    if k <= 0 {
        Ok(
            ParseState {
                juntehai: Seq::empty(),
                fuuro: Seq::empty(),
                char_stash: Seq::empty(),
                mentsu_stash: Seq::empty(),
                in_mentsu: false,
            },
        )
    } else {
        match parse_prefix(chars, k - 1) {
            Err(e) => Err(e),
            Ok(s) => parse_step(s, (k - 1) as usize, chars[k - 1]),
        }
    }
}

/// What making a tehai from a text gives: the first error of reading it; the
/// stashed digits if some are left over at the end; else what the tiles and
/// mentsu that were read make.
pub open spec fn parses_to(chars: Seq<char>, r: Result<Tehai, TehaiError>) -> bool {
    match parse_prefix(chars, chars.len() as int) {
        Err(e) => r == Err::<Tehai, TehaiError>(e),
        Ok(s) => if s.char_stash.len() > 0 {
            r is Err && r->Err_0 is NoType && r->Err_0->NoType_0@ == s.char_stash
        } else {
            makes(s.juntehai, s.fuuro, r)
        },
    }
}

fn digit_of(c: char) -> (d: u8)
    ensures
        d == digit_value(c),
{
    if c == '1' {
        1
    } else if c == '2' {
        2
    } else if c == '3' {
        3
    } else if c == '4' {
        4
    } else if c == '5' {
        5
    } else if c == '6' {
        6
    } else if c == '7' {
        7
    } else if c == '8' {
        8
    } else if c == '9' {
        9
    } else {
        0
    }
}

/// Turn the stashed digits into tiles of the given type and add them to `output`.
fn handle_char_stash(
    hai_type: char,
    hai_type_char_index: usize,
    char_stash: &mut Vec<char>,
    output: &mut Vec<Hai>,
) -> (r: Result<(), TehaiError>)
    requires
        all_valid_spec(old(output)@),
    ensures
        old(char_stash)@.len() == 0 ==> r == Err::<(), TehaiError>(
            TehaiError::UnusedType { hai_type, index: hai_type_char_index },
        ),
        old(char_stash)@.len() > 0 ==> match stash_hai(old(char_stash)@, hai_type) {
            Err(h) => r == Err::<(), TehaiError>(TehaiError::InvalidHai(h)),
            Ok(tiles) => r is Ok && final(output)@ == old(output)@ + tiles && final(char_stash)@.len()
                == 0 && all_valid_spec(final(output)@),
        },
{
    if char_stash.len() == 0 {
        return Err(TehaiError::UnusedType { hai_type, index: hai_type_char_index });
    }
    let mut i: usize = 0;
    proof {
        assert(output@ =~= old(output)@ + Seq::<Hai>::empty());
    }
    while i < char_stash.len()
        invariant
            i <= char_stash.len(),
            char_stash@ == old(char_stash)@,
            all_valid_spec(output@),
            stash_hai(char_stash@.take(i as int), hai_type) is Ok,
            output@ == old(output)@ + stash_hai(char_stash@.take(i as int), hai_type)->Ok_0,
        decreases char_stash.len() - i,
    {
        proof {
            assert(char_stash@.take(i + 1).drop_last() =~= char_stash@.take(i as int));
            assert(char_stash@.take(old(char_stash)@.len() as int) =~= char_stash@);
        }
        let digit: u8 = digit_of(char_stash[i]);
        let hai: Hai = if hai_type == 'p' {
            Hai::Pinzu(digit)
        } else if hai_type == 's' {
            Hai::Souzu(digit)
        } else if hai_type == 'z' {
            Hai::Jihai(digit)
        } else {
            Hai::Manzu(digit)
        };
        if hai.is_valid() {
            let ghost before = output@;
            output.push(hai);
            proof {
                let done = stash_hai(char_stash@.take(i as int), hai_type)->Ok_0;
                assert(before.push(hai) =~= old(output)@ + done.push(hai));
            }
        } else {
            proof {
                lemma_stash_hai_error(char_stash@, i + 1, hai_type);
            }
            return Err(TehaiError::InvalidHai(hai));
        }
        i += 1;
    }
    proof {
        assert(char_stash@.take(char_stash@.len() as int) =~= char_stash@);
    }
    char_stash.clear();
    Ok(())
}

/// An invalid tile among the first `k` digits is the one that the whole stash fails on.
proof fn lemma_stash_hai_error(stash: Seq<char>, k: int, hai_type: char)
    requires
        0 <= k <= stash.len(),
        stash_hai(stash.take(k), hai_type) is Err,
    ensures
        stash_hai(stash, hai_type) == stash_hai(stash.take(k), hai_type),
    decreases stash.len() - k,
{
    if k < stash.len() {
        assert(stash.take(k + 1).drop_last() =~= stash.take(k));
        lemma_stash_hai_error(stash, k + 1, hai_type);
    } else {
        assert(stash.take(k) =~= stash);
    }
}

impl Tehai {
    /// Create tehai from string.
    ///
    /// # Input
    /// You can input hai out of order, and use [] represent formed melds. All spaces will be ignored.
    /// * standard: `1m2m3m4m4m5m4p4p4p5p8s[1z1z1z]`
    /// * shorter: `123445m4445p8s[111z]`
    /// * with spaces: `123445m 4445p 8s [111z]`
    /// * chaos: `45p 8s14 4m[11 1z]2 5m44p 3m`
    pub fn new(string: String) -> (r: Result<Self, TehaiError>)
        ensures
            parses_to(string@, r),
    {
        let text: &str = string.as_str();
        let len: usize = text.unicode_len();
        let mut juntehai: Vec<Hai> = Vec::new();
        let mut fuuro: Vec<Mentsu> = Vec::new();
        let mut char_stash: Vec<char> = Vec::new();
        let mut hai_in_mentsu_stash: Vec<Hai> = Vec::new();
        let mut in_mentsu: bool = false;
        let mut index: usize = 0;
        while index < len
            invariant
                index <= len,
                len == string@.len(),
                text@ == string@,
                all_valid_spec(juntehai@),
                all_valid_spec(hai_in_mentsu_stash@),
                all_mentsu_wf(fuuro@),
                parse_prefix(string@, index as int) == Ok::<ParseState, TehaiError>(
                    ParseState {
                        juntehai: juntehai@,
                        fuuro: fuuro@,
                        char_stash: char_stash@,
                        mentsu_stash: hai_in_mentsu_stash@,
                        in_mentsu,
                    },
                ),
            decreases len - index,
        {
            let chr: char = text.get_char(index);
            let ghost state = parse_prefix(string@, index as int)->Ok_0;
            let ghost next = parse_step(state, index, chr);
            proof {
                assert(parse_prefix(string@, index + 1) == next);
            }
            if chr == 'm' || chr == 'p' || chr == 's' || chr == 'z' {
                let handled = if in_mentsu {
                    handle_char_stash(chr, index, &mut char_stash, &mut hai_in_mentsu_stash)
                } else {
                    handle_char_stash(chr, index, &mut char_stash, &mut juntehai)
                };
                match handled {
                    Ok(_) => {
                        proof {
                            assert(char_stash@ =~= Seq::<char>::empty());
                        }
                    },
                    Err(e) => {
                        proof {
                            lemma_parse_error(string@, index + 1);
                        }
                        return Err(e);
                    },
                }
            } else if digit_of(chr) != 0 {
                char_stash.push(chr);
            } else if chr == '[' {
                if in_mentsu {
                    proof {
                        lemma_parse_error(string@, index + 1);
                    }
                    return Err(TehaiError::SecondBracket { index });
                }
                if char_stash.len() > 0 {
                    proof {
                        lemma_parse_error(string@, index + 1);
                    }
                    return Err(TehaiError::NeedType { found: chr, index });
                }
                in_mentsu = true;
            } else if chr == ']' {
                if !in_mentsu {
                    proof {
                        lemma_parse_error(string@, index + 1);
                    }
                    return Err(TehaiError::UnmatchedBracket { index });
                }
                if char_stash.len() > 0 {
                    proof {
                        lemma_parse_error(string@, index + 1);
                    }
                    return Err(TehaiError::NeedType { found: chr, index });
                }
                match Mentsu::new(&hai_in_mentsu_stash) {
                    Some(mentsu) => {
                        fuuro.push(mentsu);
                        hai_in_mentsu_stash.clear();
                        in_mentsu = false;
                        proof {
                            assert(hai_in_mentsu_stash@ =~= Seq::<Hai>::empty());
                        }
                    },
                    None => {
                        proof {
                            lemma_parse_error(string@, index + 1);
                        }
                        return Err(TehaiError::InvalidMentsu { index });
                    },
                }
            } else if chr == ' ' {
                // Ignore all spaces.
            } else {
                proof {
                    lemma_parse_error(string@, index + 1);
                }
                return Err(TehaiError::UnknownCharacter { chr, index });
            }
            index += 1;
        }
        if char_stash.len() > 0 {
            return Err(TehaiError::NoType(char_stash));
        }
        match Tehai::from_parts(juntehai, fuuro) {
            Ok(tehai) => Ok(tehai),
            Err(e) => Err(e),
        }
    }
}

/// Once reading has failed, the rest of the text does not matter.
proof fn lemma_parse_error(chars: Seq<char>, k: int)
    requires
        0 <= k <= chars.len(),
        parse_prefix(chars, k) is Err,
    ensures
        parse_prefix(chars, chars.len() as int) == parse_prefix(chars, k),
    decreases chars.len() - k,
{
    if k < chars.len() {
        lemma_parse_error(chars, k + 1);
    }
}

} // verus!
