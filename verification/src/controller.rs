use vstd::prelude::*;
use vstd::string::*;
use crate::machi::MachiCondition;
use crate::parser::parses_to;
use crate::shanten::AnalyzeError;
use crate::tehai::{Tehai, TehaiError};
use crate::text::{
    condition_text, decimal, hai_text, push_char, push_decimal, push_hai, tehai_text,
};

verus! {

/// Answers commands with text.
#[derive(Clone, Debug)]
pub struct Controller {
    output_format: OutputFormat,
}

#[derive(Copy, Clone, Debug)]
pub enum OutputFormat {
    Standard,
}

/// Characters in single quotes, separated by a comma and a space.
pub open spec fn quoted_chars(s: Seq<char>) -> Seq<char>
    decreases s.len(),
{
    if s.len() == 0 {
        Seq::empty()
    } else if s.len() == 1 {
        seq!['\'', s[0], '\'']
    } else {
        quoted_chars(s.drop_last()) + seq![',', ' ', '\'', s.last(), '\'']
    }
}

/// The message of an error of making a tehai.
pub open spec fn tehai_error_text(e: TehaiError) -> Seq<char> {
    match e {
        TehaiError::UnusedType { hai_type, index } => "Unused type character '"@.push(hai_type)
            + "' at index "@ + decimal(index as nat) + "."@,
        TehaiError::InvalidHai(h) => "'"@ + hai_text(h) + "' is invalid hai."@,
        TehaiError::InvalidMentsu { index } => "Not a valid meld on '[]' before index "@ + decimal(
            index as nat,
        ) + "."@,
        TehaiError::SecondBracket { index } => "Second '[' found at index "@ + decimal(index as nat)
            + "."@,
        TehaiError::NeedType { found, index } => "Need 'm' 'p' 's' 'z' but find '"@.push(found)
            + "' at index "@ + decimal(index as nat) + "."@,
        TehaiError::UnmatchedBracket { index } => "Unmatched ']' found at index "@ + decimal(
            index as nat,
        ) + "."@,
        TehaiError::UnknownCharacter { chr, index } => "Unknown character '"@.push(chr)
            + "' at index "@ + decimal(index as nat) + "."@,
        TehaiError::NoType(stash) => "No type specified for '["@ + quoted_chars(stash@)
            + "]' at the end of input string."@,
        TehaiError::FifthHai(h) => "Fifth "@ + hai_text(h) + " found."@,
    }
}

/// The message of an error of analyzing a tehai.
pub open spec fn analyze_error_text(e: AnalyzeError) -> Seq<char> {
    match e {
        AnalyzeError::HaiNumber(n) =>
            "The number of hai on hand must be 3*k+2, such as 8, 11, 14, even 17, but "@ + decimal(
                n as nat,
            ) + " provided."@,
        AnalyzeError::Shanten => "Logic Error: Shanten is less than -1."@,
        AnalyzeError::Logic => "Logic Error: Code cannot reach here."@,
    }
}

/// The conditions as text, each on a line of its own.
pub open spec fn conditions_text(c: Seq<MachiCondition>) -> Seq<char>
    decreases c.len(),
{
    if c.len() == 0 {
        Seq::empty()
    } else {
        conditions_text(c.drop_last()) + "\n"@ + condition_text(c.last())
    }
}

/// The answer for an analyzed hand: the hand, then that it is complete, or
/// its shanten and the conditions.
pub open spec fn machi_text(t: Tehai, shanten: int, c: Seq<MachiCondition>) -> Seq<char> {
    "手牌："@ + tehai_text(t) + "\n"@ + if shanten == -1 {
        "和了"@
    } else {
        (if shanten == 0 {
            "聴牌"@
        } else {
            "向聴："@ + decimal(shanten as nat)
        }) + "\n--------"@ + conditions_text(c)
    }
}

/// `out` is the answer to `command`: the message of the error where making
/// or analyzing the hand fails, else the text of the hand and its analysis.
pub open spec fn answers(command: Seq<char>, out: Seq<char>) -> bool {
    exists|p: Result<Tehai, TehaiError>| #[trigger]
        parses_to(command, p) && match p {
            Err(e) => out == tehai_error_text(e),
            Ok(t) => exists|a: Result<(i32, Vec<MachiCondition>), AnalyzeError>| #[trigger]
                t.analyzes_to(a) && match a {
                    Err(e) => out == analyze_error_text(e),
                    Ok(found) => out == machi_text(t, found.0 as int, found.1@),
                },
        }
}

impl TehaiError {
    /// The message of the error.
    pub fn message(&self) -> (r: String)
        ensures
            r@ == tehai_error_text(*self),
    {
        match self {
            TehaiError::UnusedType { hai_type, index } => {
                let mut r: String = String::from_str("Unused type character '");
                push_char(&mut r, *hai_type);
                r.append("' at index ");
                push_decimal(&mut r, *index);
                r.append(".");
                r
            },
            TehaiError::InvalidHai(h) => {
                let mut r: String = String::from_str("'");
                push_hai(&mut r, h);
                r.append("' is invalid hai.");
                r
            },
            TehaiError::InvalidMentsu { index } => {
                let mut r: String = String::from_str("Not a valid meld on '[]' before index ");
                push_decimal(&mut r, *index);
                r.append(".");
                r
            },
            TehaiError::SecondBracket { index } => {
                let mut r: String = String::from_str("Second '[' found at index ");
                push_decimal(&mut r, *index);
                r.append(".");
                r
            },
            TehaiError::NeedType { found, index } => {
                let mut r: String = String::from_str("Need 'm' 'p' 's' 'z' but find '");
                push_char(&mut r, *found);
                r.append("' at index ");
                push_decimal(&mut r, *index);
                r.append(".");
                r
            },
            TehaiError::UnmatchedBracket { index } => {
                let mut r: String = String::from_str("Unmatched ']' found at index ");
                push_decimal(&mut r, *index);
                r.append(".");
                r
            },
            TehaiError::UnknownCharacter { chr, index } => {
                let mut r: String = String::from_str("Unknown character '");
                push_char(&mut r, *chr);
                r.append("' at index ");
                push_decimal(&mut r, *index);
                r.append(".");
                r
            },
            TehaiError::NoType(stash) => {
                let mut r: String = String::from_str("No type specified for '[");
                let ghost head = r@;
                let mut i: usize = 0;
                proof {
                    assert(r@ =~= head + quoted_chars(stash@.take(0)));
                }
                while i < stash.len()
                    invariant
                        i <= stash.len(),
                        r@ == head + quoted_chars(stash@.take(i as int)),
                    decreases stash.len() - i,
                {
                    proof {
                        assert(stash@.take(i + 1).drop_last() =~= stash@.take(i as int));
                    }
                    if i > 0 {
                        r.append(", ");
                        proof {
                            reveal_strlit(", ");
                        }
                    } else {
                        proof {
                            assert(quoted_chars(stash@.take(0)) =~= Seq::<char>::empty());
                        }
                    }
                    push_char(&mut r, '\'');
                    push_char(&mut r, stash[i]);
                    push_char(&mut r, '\'');
                    proof {
                        assert(r@ =~= head + quoted_chars(stash@.take(i + 1)));
                    }
                    i += 1;
                }
                proof {
                    assert(stash@.take(stash@.len() as int) =~= stash@);
                }
                r.append("]' at the end of input string.");
                r
            },
            TehaiError::FifthHai(h) => {
                let mut r: String = String::from_str("Fifth ");
                push_hai(&mut r, h);
                r.append(" found.");
                r
            },
        }
    }
}

impl AnalyzeError {
    /// The message of the error.
    pub fn message(&self) -> (r: String)
        ensures
            r@ == analyze_error_text(*self),
    {
        match self {
            AnalyzeError::HaiNumber(n) => {
                let mut r: String = String::from_str(
                    "The number of hai on hand must be 3*k+2, such as 8, 11, 14, even 17, but ",
                );
                push_decimal(&mut r, *n);
                r.append(" provided.");
                r
            },
            AnalyzeError::Shanten => String::from_str("Logic Error: Shanten is less than -1."),
            AnalyzeError::Logic => String::from_str("Logic Error: Code cannot reach here."),
        }
    }
}

/// The answer for an analyzed hand.
pub fn print_machi(tehai: &Tehai, shanten: i32, conditions: &Vec<MachiCondition>) -> (r: String)
    requires
        shanten >= -1,
        forall|i: int| 0 <= i < conditions@.len() ==> (#[trigger] conditions@[i]).wf(),
    ensures
        r@ == machi_text(*tehai, shanten as int, conditions@),
{
    let mut r: String = String::from_str("手牌：");
    let hand: String = tehai.to_string();
    r.append(hand.as_str());
    r.append("\n");
    if shanten == -1 {
        r.append("和了");
        return r;
    }
    if shanten == 0 {
        r.append("聴牌");
    } else {
        r.append("向聴：");
        push_decimal(&mut r, shanten as usize);
    }
    r.append("\n--------");
    let ghost head = r@;
    let mut i: usize = 0;
    proof {
        assert(r@ =~= head + conditions_text(conditions@.take(0)));
    }
    while i < conditions.len()
        invariant
            i <= conditions.len(),
            forall|k: int| 0 <= k < conditions@.len() ==> (#[trigger] conditions@[k]).wf(),
            r@ == head + conditions_text(conditions@.take(i as int)),
        decreases conditions.len() - i,
    {
        proof {
            assert(conditions@.take(i + 1).drop_last() =~= conditions@.take(i as int));
        }
        r.append("\n");
        let line: String = conditions[i].to_string();
        r.append(line.as_str());
        proof {
            assert(r@ =~= head + conditions_text(conditions@.take(i + 1)));
        }
        i += 1;
    }
    proof {
        assert(conditions@.take(conditions@.len() as int) =~= conditions@);
        assert(r@ =~= machi_text(*tehai, shanten as int, conditions@));
    }
    r
}

impl Controller {
    /// The format in which the controller answers.
    pub closed spec fn format(&self) -> OutputFormat {
        self.output_format
    }

    pub fn new(output_format: OutputFormat) -> (c: Self)
        ensures
            c.format() == output_format,
    {
        Self { output_format }
    }

    /// Answer a command: a hand in text form.
    pub fn execute(&mut self, command: String) -> (out: String)
        ensures
            answers(command@, out@),
    {
        let result = self.execute_core(command);
        match result {
            Ok(Some(output)) => output,
            Err(error) => match self.output_format {
                OutputFormat::Standard => error,
            },
            _ => String::new(),
        }
    }

    fn execute_core(&mut self, command: String) -> (r: Result<Option<String>, String>)
        ensures
            match r {
                Ok(Some(out)) => answers(command@, out@),
                Ok(None) => false,
                Err(out) => answers(command@, out@),
            },
    {
        let ghost text = command@;
        let parsed = Tehai::new(command);
        let ghost p = parsed;
        let tehai = match parsed {
            Ok(tehai) => tehai,
            Err(e) => {
                let out = e.message();
                proof {
                    assert(parses_to(text, p));
                }
                return Err(out);
            },
        };
        let analyzed = tehai.analyze();
        let ghost a = analyzed;
        match analyzed {
            Ok((shanten, conditions)) => {
                proof {
                    assert forall|i: int| 0 <= i < conditions@.len() implies (
                    #[trigger] conditions@[i]).wf() by {
                        if shanten >= 0 {
                            assert(tehai.is_entry(conditions@[i]));
                        }
                    }
                }
                let out = print_machi(&tehai, shanten, &conditions);
                proof {
                    assert(parses_to(text, p));
                    assert(tehai.analyzes_to(a));
                }
                Ok(Some(out))
            },
            Err(e) => {
                let out = e.message();
                proof {
                    assert(parses_to(text, p));
                    assert(tehai.analyzes_to(a));
                }
                Err(out)
            },
        }
    }
}

} // verus!
