use mahjong::block::{Mentsu, Taatsu, Toitsu, Ukihai};
use mahjong::controller::{print_machi, Controller, OutputFormat};
use mahjong::hai::Hai;
use mahjong::shanten::AnalyzeError;
use mahjong::tehai::{Tehai, TehaiError};

fn parse(text: &str) -> Result<Tehai, TehaiError> {
    Tehai::new(text.to_string())
}

fn answer(text: &str) -> String {
    Controller::new(OutputFormat::Standard).execute(text.to_string())
}

#[test]
fn new_reads_the_short_notation() {
    let t = parse("123445m4445p8s[111z]").unwrap();
    assert_eq!(
        t.juntehai,
        vec![
            Hai::Manzu(1),
            Hai::Manzu(2),
            Hai::Manzu(3),
            Hai::Manzu(4),
            Hai::Manzu(4),
            Hai::Manzu(5),
            Hai::Pinzu(4),
            Hai::Pinzu(4),
            Hai::Pinzu(4),
            Hai::Pinzu(5),
            Hai::Souzu(8),
        ]
    );
    assert_eq!(t.fuuro, vec![Mentsu::Koutsu(Hai::Jihai(1))]);
}

#[test]
fn new_reads_every_notation_alike() {
    let short = parse("123445m4445p8s[111z]").unwrap();
    assert_eq!(parse("1m2m3m4m4m5m4p4p4p5p8s[1z1z1z]").unwrap(), short);
    assert_eq!(parse("123445m 4445p 8s [111z]").unwrap(), short);
    assert_eq!(parse("45p 8s14 4m[11 1z]2 5m44p 3m").unwrap(), short);
}

#[test]
fn new_sorts_a_juntsu_in_brackets() {
    let t = parse("11m[978s][2222p]").unwrap();
    assert_eq!(
        t.fuuro,
        vec![
            Mentsu::Juntsu(Hai::Souzu(7), Hai::Souzu(8), Hai::Souzu(9)),
            Mentsu::Kantsu(Hai::Pinzu(2)),
        ]
    );
}

#[test]
fn new_of_empty_text_is_an_empty_hand() {
    let t = parse("").unwrap();
    assert!(t.juntehai.is_empty());
    assert!(t.fuuro.is_empty());
    assert_eq!(t.to_string(), "");
}

#[test]
fn new_reports_each_error() {
    assert_eq!(parse("m"), Err(TehaiError::UnusedType { hai_type: 'm', index: 0 }));
    assert_eq!(parse("12m z"), Err(TehaiError::UnusedType { hai_type: 'z', index: 4 }));
    assert_eq!(parse("8z"), Err(TehaiError::InvalidHai(Hai::Jihai(8))));
    assert_eq!(parse("179z"), Err(TehaiError::InvalidHai(Hai::Jihai(9))));
    assert_eq!(parse("[12m]"), Err(TehaiError::InvalidMentsu { index: 4 }));
    assert_eq!(parse("[123z]"), Err(TehaiError::InvalidMentsu { index: 5 }));
    assert_eq!(parse("[]"), Err(TehaiError::InvalidMentsu { index: 1 }));
    assert_eq!(parse("[["), Err(TehaiError::SecondBracket { index: 1 }));
    assert_eq!(parse("1["), Err(TehaiError::NeedType { found: '[', index: 1 }));
    assert_eq!(parse("[1]"), Err(TehaiError::NeedType { found: ']', index: 2 }));
    assert_eq!(parse("]"), Err(TehaiError::UnmatchedBracket { index: 0 }));
    assert_eq!(parse("1x"), Err(TehaiError::UnknownCharacter { chr: 'x', index: 1 }));
    assert_eq!(parse("0m"), Err(TehaiError::UnknownCharacter { chr: '0', index: 0 }));
    assert_eq!(parse("1m 牌"), Err(TehaiError::UnknownCharacter { chr: '牌', index: 3 }));
    assert_eq!(parse("1m12"), Err(TehaiError::NoType(vec!['1', '2'])));
    assert_eq!(parse("11111m"), Err(TehaiError::FifthHai(Hai::Manzu(1))));
    assert_eq!(parse("11m[111m]"), Err(TehaiError::FifthHai(Hai::Manzu(1))));
}

#[test]
fn blocks_render_as_text() {
    assert_eq!(Hai::Pinzu(5).to_string(), "5p");
    assert_eq!(Hai::Jihai(7).to_string(), "7z");
    assert_eq!(Hai::Manzu(0).to_string(), "0m");
    assert_eq!(Hai::Souzu(123).to_string(), "123s");
    assert_eq!(
        Mentsu::Juntsu(Hai::Manzu(1), Hai::Manzu(2), Hai::Manzu(3)).to_string(),
        "[1m2m3m]"
    );
    assert_eq!(Mentsu::Koutsu(Hai::Jihai(1)).to_string(), "[1z1z1z]");
    assert_eq!(Mentsu::Kantsu(Hai::Souzu(9)).to_string(), "[9s9s9s9s]");
    assert_eq!(Taatsu(Hai::Pinzu(1), Hai::Pinzu(3)).to_string(), "1p3p");
    assert_eq!(Toitsu(Hai::Pinzu(1)).to_string(), "1p1p");
    assert_eq!(Ukihai(Hai::Souzu(4)).to_string(), "4s");
}

#[test]
fn tehai_renders_sorted() {
    let t = parse("45p 8s14 4m[11 1z]2 5m44p 3m").unwrap();
    assert_eq!(t.to_string(), "1m2m3m4m4m5m4p4p4p5p8s[1z1z1z]");
}

#[test]
fn errors_render_their_messages() {
    assert_eq!(
        TehaiError::UnusedType { hai_type: 'm', index: 0 }.message(),
        "Unused type character 'm' at index 0."
    );
    assert_eq!(TehaiError::InvalidHai(Hai::Jihai(8)).message(), "'8z' is invalid hai.");
    assert_eq!(
        TehaiError::InvalidMentsu { index: 12 }.message(),
        "Not a valid meld on '[]' before index 12."
    );
    assert_eq!(TehaiError::SecondBracket { index: 1 }.message(), "Second '[' found at index 1.");
    assert_eq!(
        TehaiError::NeedType { found: ']', index: 305 }.message(),
        "Need 'm' 'p' 's' 'z' but find ']' at index 305."
    );
    assert_eq!(
        TehaiError::UnmatchedBracket { index: 0 }.message(),
        "Unmatched ']' found at index 0."
    );
    assert_eq!(
        TehaiError::UnknownCharacter { chr: 'x', index: 1 }.message(),
        "Unknown character 'x' at index 1."
    );
    assert_eq!(
        TehaiError::NoType(vec!['1', '2', '9']).message(),
        "No type specified for '['1', '2', '9']' at the end of input string."
    );
    assert_eq!(
        TehaiError::NoType(vec!['7']).message(),
        "No type specified for '['7']' at the end of input string."
    );
    assert_eq!(TehaiError::FifthHai(Hai::Manzu(1)).message(), "Fifth 1m found.");
    assert_eq!(
        AnalyzeError::HaiNumber(13).message(),
        "The number of hai on hand must be 3*k+2, such as 8, 11, 14, even 17, but 13 provided."
    );
    assert_eq!(AnalyzeError::Logic.message(), "Logic Error: Code cannot reach here.");
    assert_eq!(AnalyzeError::Shanten.message(), "Logic Error: Shanten is less than -1.");
}

#[test]
fn execute_answers_a_complete_hand() {
    assert_eq!(answer("1112345678999m1m"), "手牌：1m1m1m1m2m3m4m5m6m7m8m9m9m9m\n和了");
}

#[test]
fn execute_answers_a_tenpai_hand() {
    assert_eq!(
        answer("123456789m11p23s9s"),
        "手牌：1m2m3m4m5m6m7m8m9m1p1p2s3s9s\n聴牌\n--------\n打 9s 摸 1s 4s  共8枚"
    );
    assert_eq!(
        answer("23m456789p55z9s[1111m]"),
        "手牌：2m3m4p5p6p7p8p9p9s5z5z[1m1m1m1m]\n聴牌\n--------\n打 9s 摸 4m  共4枚"
    );
}

#[test]
fn execute_answers_a_hand_far_from_complete() {
    let out = answer("147m258p369s12345z");
    assert!(out.starts_with("手牌：1m4m7m2p5p8p3s6s9s1z2z3z4z5z\n向聴：6\n--------\n打 "));
    for line in out.lines().skip(3) {
        assert!(line.starts_with("打 "));
        assert!(line.ends_with("枚"));
    }
}

#[test]
fn execute_answers_errors_with_their_message() {
    assert_eq!(answer("1x"), "Unknown character 'x' at index 1.");
    assert_eq!(answer("11111m"), "Fifth 1m found.");
    assert_eq!(
        answer("123m"),
        "The number of hai on hand must be 3*k+2, such as 8, 11, 14, even 17, but 3 provided."
    );
}

#[test]
fn print_machi_lists_each_condition_on_a_line() {
    let t = parse("11m44m88m22p66p99s34z").unwrap();
    let (shanten, conditions) = t.analyze().unwrap();
    assert_eq!(
        print_machi(&t, shanten, &conditions),
        "手牌：1m1m4m4m8m8m2p2p6p6p9s9s3z4z\n聴牌\n--------\n打 3z 摸 4z  共3枚\n打 4z 摸 3z  共3枚"
    );
    let mut flagged = conditions[0].clone();
    flagged.furiten = true;
    assert_eq!(flagged.to_string(), "打 3z 摸 4z  共3枚!振り聴!");
}

#[test]
fn execute_orders_conditions_by_count_then_tile() {
    assert_eq!(
        answer("19m5p15z"),
        "手牌：1m9m5p1z5z\n向聴：2\n--------\n\
         打 1z 摸 1m 2m 3m 7m 8m 9m 3p 4p 5p 6p 7p 5z  共44枚\n\
         打 5z 摸 1m 2m 3m 7m 8m 9m 3p 4p 5p 6p 7p 1z  共44枚\n\
         打 1m 摸 7m 8m 9m 3p 4p 5p 6p 7p 1z 5z  共36枚\n\
         打 9m 摸 1m 2m 3m 3p 4p 5p 6p 7p 1z 5z  共36枚\n\
         打 5p 摸 1m 2m 3m 7m 8m 9m 1z 5z  共28枚"
    );
}

#[test]
fn execute_answers_the_smallest_hands() {
    assert_eq!(answer("11m"), "手牌：1m1m\n和了");
    assert_eq!(
        answer("12m"),
        "手牌：1m2m\n聴牌\n--------\n打 1m 摸 2m  共3枚\n打 2m 摸 1m  共3枚"
    );
    assert_eq!(
        answer("123m5p1z"),
        "手牌：1m2m3m5p1z\n聴牌\n--------\n打 5p 摸 1z  共3枚\n打 1z 摸 5p  共3枚"
    );
}
