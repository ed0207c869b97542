use mahjong::block::Mentsu;
use mahjong::decomposer::{split_tiles, Decomposer, Hourakei};
use mahjong::hai::Hai;
use mahjong::machi::MachiCondition;
use mahjong::shanten::AnalyzeError;
use mahjong::special::{decompose_chiitoitsu, decompose_kokushimusou};
use mahjong::tehai::{sort_hai, Tehai, TehaiError};

fn m(n: u8) -> Hai {
    Hai::Manzu(n)
}

fn p(n: u8) -> Hai {
    Hai::Pinzu(n)
}

fn s(n: u8) -> Hai {
    Hai::Souzu(n)
}

fn z(n: u8) -> Hai {
    Hai::Jihai(n)
}

fn hand(tiles: Vec<Hai>) -> Tehai {
    Tehai::from_parts(tiles, vec![]).unwrap()
}

fn analyzed(tiles: Vec<Hai>) -> (i32, Vec<MachiCondition>) {
    hand(tiles).analyze().unwrap()
}

#[test]
fn mentsu_new_sorts_a_juntsu() {
    assert_eq!(Mentsu::new(&vec![m(3), m(1), m(2)]), Some(Mentsu::Juntsu(m(1), m(2), m(3))));
    assert_eq!(Mentsu::new(&vec![s(9), s(7), s(8)]), Some(Mentsu::Juntsu(s(7), s(8), s(9))));
    assert_eq!(Mentsu::new(&vec![p(4), p(5), p(6)]), Some(Mentsu::Juntsu(p(4), p(5), p(6))));
}

#[test]
fn mentsu_new_koutsu_and_kantsu() {
    assert_eq!(Mentsu::new(&vec![z(5), z(5), z(5)]), Some(Mentsu::Koutsu(z(5))));
    assert_eq!(Mentsu::new(&vec![p(2), p(2), p(2), p(2)]), Some(Mentsu::Kantsu(p(2))));
}

#[test]
fn mentsu_new_rejects_other_shapes() {
    assert_eq!(Mentsu::new(&vec![m(1), m(2), p(3)]), None);
    assert_eq!(Mentsu::new(&vec![z(1), z(2), z(3)]), None);
    assert_eq!(Mentsu::new(&vec![m(1), m(2), m(4)]), None);
    assert_eq!(Mentsu::new(&vec![m(1), m(1), m(2)]), None);
    assert_eq!(Mentsu::new(&vec![m(1), m(1)]), None);
    assert_eq!(Mentsu::new(&vec![m(1), m(1), m(1), m(2)]), None);
    assert_eq!(Mentsu::new(&vec![m(0), m(1), m(2)]), None);
    assert_eq!(Mentsu::new(&vec![z(8), z(8), z(8)]), None);
    assert_eq!(Mentsu::new(&vec![]), None);
}

#[test]
fn hai_adjacency_stays_in_suit() {
    assert_eq!(m(1).previous(), None);
    assert_eq!(m(1).next(), Some(m(2)));
    assert_eq!(p(9).next(), None);
    assert_eq!(p(9).previous(), Some(p(8)));
    assert_eq!(z(3).next(), None);
    assert_eq!(z(3).previous(), None);
    assert_eq!(s(0).next(), None);
}

#[test]
fn hai_order_and_index_agree() {
    let mut k: usize = 0;
    while k < 34 {
        let h = Hai::from_index(k);
        assert!(h.is_valid());
        assert_eq!(h.to_index(), k);
        if k > 0 {
            let before = Hai::from_index(k - 1);
            assert!(before.lt(&h));
            assert!(before < h);
            assert!(!h.lt(&before));
        }
        k += 1;
    }
    assert!(!z(8).is_valid());
    assert!(!m(10).is_valid());
}

#[test]
fn yaochuupai_are_thirteen_ascending() {
    let y = Hai::yaochuupai_type();
    assert_eq!(
        y,
        vec![m(1), m(9), p(1), p(9), s(1), s(9), z(1), z(2), z(3), z(4), z(5), z(6), z(7)]
    );
    assert!(!m(5).is_yaochuupai());
}

#[test]
fn sort_hai_orders_tiles() {
    let sorted = sort_hai(&vec![z(1), s(3), m(9), p(2), m(1), s(3)]);
    assert_eq!(sorted, vec![m(1), m(9), p(2), s(3), s(3), z(1)]);
}

#[test]
fn from_parts_sorts_and_keeps_fuuro() {
    let t = Tehai::from_parts(vec![p(5), m(2)], vec![Mentsu::Koutsu(z(1))]).unwrap();
    assert_eq!(t.juntehai, vec![m(2), p(5)]);
    assert_eq!(t.fuuro, vec![Mentsu::Koutsu(z(1))]);
    assert_eq!(t.all_hai(), vec![m(2), p(5), z(1), z(1), z(1)]);
}

#[test]
fn from_parts_rejects_invalid_hai() {
    assert_eq!(Tehai::from_parts(vec![m(1), z(9)], vec![]), Err(TehaiError::InvalidHai(z(9))));
}

#[test]
fn from_parts_rejects_invalid_mentsu() {
    assert_eq!(
        Tehai::from_parts(vec![m(1), m(2)], vec![Mentsu::Juntsu(m(1), m(2), m(4))]),
        Err(TehaiError::InvalidMentsu { index: 0 })
    );
    assert_eq!(
        Tehai::from_parts(vec![m(1), m(2)], vec![Mentsu::Koutsu(m(1)), Mentsu::Juntsu(z(1), z(2), z(3))]),
        Err(TehaiError::InvalidMentsu { index: 1 })
    );
}

#[test]
fn from_parts_rejects_fifth_hai() {
    assert_eq!(
        Tehai::from_parts(vec![m(1), m(1), m(1), m(1), m(1)], vec![]),
        Err(TehaiError::FifthHai(m(1)))
    );
    assert_eq!(
        Tehai::from_parts(vec![m(1), m(2)], vec![Mentsu::Kantsu(m(2))]),
        Err(TehaiError::FifthHai(m(2)))
    );
    assert_eq!(
        Tehai::from_parts(vec![m(3), m(3)], vec![Mentsu::Juntsu(m(1), m(2), m(3)), Mentsu::Koutsu(m(3))]),
        Err(TehaiError::FifthHai(m(3)))
    );
}

#[test]
fn analyze_rejects_wrong_hai_number() {
    let t = hand(vec![m(1), m(2), m(3)]);
    assert_eq!(t.analyze().err(), Some(AnalyzeError::HaiNumber(3)));
    let t = hand(vec![m(1), m(2), m(3), m(4)]);
    assert_eq!(t.decompose().err(), Some(AnalyzeError::HaiNumber(4)));
    let t = hand(vec![]);
    assert_eq!(t.analyze().err(), Some(AnalyzeError::HaiNumber(0)));
}

#[test]
fn nine_gates_is_complete() {
    let (shanten, conditions) = analyzed(vec![
        m(1), m(1), m(1), m(2), m(3), m(4), m(5), m(6), m(7), m(8), m(9), m(9), m(9), m(1),
    ]);
    assert_eq!(shanten, -1);
    assert!(conditions.is_empty());
}

#[test]
fn thirteen_orphans_is_complete() {
    let (shanten, conditions) = analyzed(vec![
        m(1), m(9), p(1), p(9), s(1), s(9), z(1), z(2), z(3), z(4), z(5), z(6), z(7), p(9),
    ]);
    assert_eq!(shanten, -1);
    assert!(conditions.is_empty());
    let t = hand(vec![
        m(1), m(9), p(1), p(9), s(1), s(9), z(1), z(2), z(3), z(4), z(5), z(6), z(7), p(9),
    ]);
    let (_, kept) = t.decompose().unwrap();
    assert!(kept.iter().any(|d| d.hourakei == Hourakei::Kokushimusou));
}

#[test]
fn seven_pairs_is_complete() {
    let tiles = vec![
        m(1), m(1), m(4), m(4), m(8), m(8), p(2), p(2), p(6), p(6), s(9), s(9), z(3), z(3),
    ];
    let (shanten, conditions) = analyzed(tiles.clone());
    assert_eq!(shanten, -1);
    assert!(conditions.is_empty());
    let (_, kept) = hand(tiles).decompose().unwrap();
    assert_eq!(kept.len(), 1);
    assert_eq!(kept[0].hourakei, Hourakei::Chiitoitsu);
    assert_eq!(kept[0].toitsu_vec.len(), 7);
}

#[test]
fn tenpai_reports_the_waits_that_complete_the_hand() {
    let base = vec![m(1), m(2), m(3), m(4), m(5), m(6), m(7), m(8), m(9), p(1), p(1), s(2), s(3)];
    let mut tiles = base.clone();
    tiles.push(s(9));
    let (shanten, conditions) = analyzed(tiles);
    assert_eq!(shanten, 0);
    assert_eq!(conditions.len(), 1);
    assert_eq!(conditions[0].sutehai, s(9));
    assert!(!conditions[0].furiten);
    assert_eq!(conditions[0].machihai_list(), vec![(s(1), 4), (s(4), 4)]);
    assert_eq!(conditions[0].nokori(), 8);
    for (wait, _) in conditions[0].machihai_list() {
        let mut completed = base.clone();
        completed.push(wait);
        assert_eq!(analyzed(completed).0, -1);
    }
}

#[test]
fn a_tile_held_four_times_is_no_wait() {
    let t = Tehai::from_parts(
        vec![m(2), m(3), p(4), p(5), p(6), p(7), p(8), p(9), z(5), z(5), s(9)],
        vec![Mentsu::Kantsu(m(1))],
    ).unwrap();
    let (shanten, conditions) = t.analyze().unwrap();
    assert_eq!(shanten, 0);
    assert_eq!(conditions.len(), 1);
    assert_eq!(conditions[0].sutehai, s(9));
    assert_eq!(conditions[0].machihai_list(), vec![(m(4), 4)]);
    assert_eq!(conditions[0].remaining(&m(1)), 0);
    assert_eq!(conditions[0].nokori(), 4);
}

#[test]
fn counts_fall_by_the_copies_in_hand() {
    let t = Tehai::from_parts(
        vec![m(2), m(3), p(4), p(5), p(6), p(7), p(8), p(9), z(5), z(5), s(9)],
        vec![Mentsu::Juntsu(m(4), m(5), m(6))],
    ).unwrap();
    let (shanten, conditions) = t.analyze().unwrap();
    assert_eq!(shanten, 0);
    assert_eq!(conditions.len(), 1);
    assert_eq!(conditions[0].machihai_list(), vec![(m(1), 4), (m(4), 3)]);
    assert_eq!(conditions[0].nokori(), 7);
}

#[test]
fn pinzu_taatsu_waits_on_both_ends() {
    let (shanten, conditions) = analyzed(vec![
        m(1), m(2), m(3), m(4), m(5), m(6), m(7), m(8), m(9), s(1), s(1), p(4), p(5), z(1),
    ]);
    assert_eq!(shanten, 0);
    assert_eq!(conditions.len(), 1);
    assert_eq!(conditions[0].sutehai, z(1));
    assert_eq!(conditions[0].machihai_list(), vec![(p(3), 4), (p(6), 4)]);
}

#[test]
fn report_is_sorted_and_counts_are_in_range() {
    let (shanten, conditions) = analyzed(vec![
        m(1), m(2), m(3), m(5), m(6), p(2), p(4), p(7), p(7), s(3), s(5), s(8), z(1), z(2),
    ]);
    assert!(shanten >= 0);
    assert!(!conditions.is_empty());
    for c in conditions.iter() {
        assert!(c.nokori() > 0);
        assert_eq!(c.machihai.len(), 34);
        let list = c.machihai_list();
        let mut total: usize = 0;
        for (h, n) in list.iter() {
            assert!(h.is_valid());
            assert!(*n >= 1 && *n <= 4);
            assert_eq!(c.remaining(h), *n);
            total += *n as usize;
        }
        assert_eq!(total, c.nokori());
    }
    for w in conditions.windows(2) {
        assert!(
            w[0].nokori() > w[1].nokori()
                || (w[0].nokori() == w[1].nokori() && w[0].sutehai < w[1].sutehai)
        );
    }
}

#[test]
fn analyzing_twice_gives_the_same_result() {
    let t = hand(vec![
        m(1), m(2), m(3), m(5), m(6), p(2), p(4), p(7), p(7), s(3), s(5), s(8), z(1), z(2),
    ]);
    let (s1, c1) = t.analyze().unwrap();
    let (s2, c2) = t.analyze().unwrap();
    assert_eq!(s1, s2);
    assert_eq!(c1.len(), c2.len());
    for (a, b) in c1.iter().zip(c2.iter()) {
        assert_eq!(a.sutehai, b.sutehai);
        assert_eq!(a.machihai, b.machihai);
        assert_eq!(a.furiten, b.furiten);
    }
}

#[test]
fn special_forms_need_fourteen_tiles_without_fuuro() {
    // Four pairs and three singles: chiitoitsu would be 2 away, mentsute is further.
    let tiles = vec![m(1), m(1), m(5), m(5), p(3), p(3), s(7), s(7), z(1), z(2), z(3)];
    let t = hand(tiles);
    let (_, kept) = t.decompose().unwrap();
    assert!(kept.iter().all(|d| d.hourakei == Hourakei::Mentsute));
    let t = Tehai::from_parts(
        vec![m(1), m(1), m(5), m(5), p(3), p(3), s(7), s(7), z(1), z(2), z(3), z(4), z(5), z(6)],
        vec![Mentsu::Koutsu(s(1))],
    ).unwrap();
    let (_, kept) = t.decompose().unwrap();
    assert!(kept.iter().all(|d| d.hourakei == Hourakei::Mentsute));
}

#[test]
fn ties_between_forms_are_all_kept() {
    let t = hand(vec![
        m(1), m(4), m(7), p(2), p(5), p(8), s(3), s(6), s(9), z(1), z(2), z(3), z(4), z(5),
    ]);
    let (shanten, kept) = t.decompose().unwrap();
    assert_eq!(shanten, 6);
    assert!(kept.iter().any(|d| d.hourakei == Hourakei::Chiitoitsu));
    assert!(kept.iter().any(|d| d.hourakei == Hourakei::Kokushimusou));
    assert!(kept.iter().all(|d| d.shanten(14) == 6));
}

#[test]
fn shanten_formulas_give_exact_values() {
    let mut d = Decomposer::new();
    d.mentsu_vec.push(Mentsu::Koutsu(m(1)));
    d.mentsu_vec.push(Mentsu::Juntsu(p(1), p(2), p(3)));
    d.taatsu_vec.push(mahjong::block::Taatsu(s(1), s(2)));
    d.toitsu_vec.push(mahjong::block::Toitsu(z(1)));
    d.invalid_ukihai_vec.push(mahjong::block::Ukihai(z(2)));
    d.invalid_ukihai_vec.push(mahjong::block::Ukihai(z(3)));
    d.invalid_ukihai_vec.push(mahjong::block::Ukihai(z(4)));
    d.invalid_ukihai_vec.push(mahjong::block::Ukihai(z(5)));
    // 14 tiles: 8 - 2*2 - 1 - 1
    assert_eq!(d.shanten(14), 2);

    let mut twice = Decomposer::new();
    twice.toitsu_vec.push(mahjong::block::Toitsu(z(1)));
    twice.toitsu_vec.push(mahjong::block::Toitsu(z(1)));
    twice.invalid_ukihai_vec.push(mahjong::block::Ukihai(z(2)));
    assert!(twice.has_repeated_toitsu());
    assert_eq!(twice.shanten(5), 13);

    let c = decompose_chiitoitsu(&vec![
        m(1), m(1), m(1), m(1), m(5), m(5), p(3), p(4), s(7), s(7), z(1), z(2), z(3), z(3),
    ]);
    assert_eq!(c.hourakei, Hourakei::Chiitoitsu);
    assert_eq!(c.toitsu_vec.len(), 4);
    assert_eq!(c.valid_ukihai_vec.len(), 4);
    assert_eq!(c.invalid_ukihai_vec.len(), 2);
    // 13 - 2*4 - min(4, 3)
    assert_eq!(c.shanten(14), 2);

    let k = decompose_kokushimusou(&vec![
        m(1), m(1), m(1), m(9), p(1), p(5), p(9), p(9), s(1), s(2), z(1), z(2), z(3), z(3),
    ]);
    assert_eq!(k.hourakei, Hourakei::Kokushimusou);
    // useful: 1m 1m 9m 1p 9p 1s 1z 2z 3z
    assert_eq!(k.valid_ukihai_vec.len(), 9);
    assert_eq!(k.invalid_ukihai_vec.len(), 5);
    assert_eq!(k.shanten(14), 4);
}

#[test]
fn split_explores_every_branch() {
    let mut out: Vec<Decomposer> = Vec::new();
    split_tiles(&vec![m(1), m(1)], Decomposer::new(), &mut out);
    // as a toitsu, or as two ukihai
    assert_eq!(out.len(), 2);
    assert_eq!(out[0].toitsu_vec.len(), 1);
    assert_eq!(out[1].invalid_ukihai_vec.len(), 2);

    let mut out: Vec<Decomposer> = Vec::new();
    split_tiles(&vec![m(1), m(2), m(3)], Decomposer::new(), &mut out);
    // taatsu 12 + 3, juntsu 123, 1 + taatsu 23, 1 + 2 + 3
    assert_eq!(out.len(), 4);
    assert_eq!(out[1].mentsu_vec, vec![Mentsu::Juntsu(m(1), m(2), m(3))]);

    let mut out: Vec<Decomposer> = Vec::new();
    split_tiles(&vec![m(1), m(3)], Decomposer::new(), &mut out);
    assert_eq!(out.len(), 2);
    assert_eq!(out[0].taatsu_vec, vec![mahjong::block::Taatsu(m(1), m(3))]);

    let mut out: Vec<Decomposer> = Vec::new();
    split_tiles(&vec![z(1), z(2)], Decomposer::new(), &mut out);
    assert_eq!(out.len(), 1);
}

#[test]
fn chiitoitsu_without_dead_tile_gives_up_a_single() {
    // Six pairs and two singles: discard either single, wait for the other.
    let (shanten, conditions) = analyzed(vec![
        m(1), m(1), m(4), m(4), m(8), m(8), p(2), p(2), p(6), p(6), s(9), s(9), z(3), z(4),
    ]);
    assert_eq!(shanten, 0);
    assert_eq!(conditions.len(), 2);
    assert_eq!(conditions[0].sutehai, z(3));
    assert_eq!(conditions[0].machihai_list(), vec![(z(4), 3)]);
    assert_eq!(conditions[1].sutehai, z(4));
    assert_eq!(conditions[1].machihai_list(), vec![(z(3), 3)]);
}

#[test]
fn kokushimusou_waits_for_the_missing_orphans() {
    // Twelve orphan types with a pair, and one dead tile.
    let (shanten, conditions) = analyzed(vec![
        m(1), m(9), p(1), p(9), s(1), s(9), z(1), z(2), z(3), z(4), z(5), z(6), z(6), m(5),
    ]);
    assert_eq!(shanten, 0);
    assert_eq!(conditions.len(), 1);
    assert_eq!(conditions[0].sutehai, m(5));
    assert_eq!(conditions[0].machihai_list(), vec![(z(7), 4)]);
}

#[test]
fn equal_decompositions_are_kept_once() {
    // The koutsu can be taken before or after the fourth 1m is set aside.
    let t = hand(vec![m(1), m(1), m(1), m(1), p(5)]);
    let (shanten, kept) = t.decompose().unwrap();
    assert_eq!(shanten, 0);
    assert_eq!(kept.len(), 1);
    assert_eq!(kept[0].mentsu_vec, vec![Mentsu::Koutsu(m(1))]);
    assert_eq!(kept[0].invalid_ukihai_vec.len(), 2);
    let other = kept[0].duplicate();
    assert!(kept[0].same_as(&other));
    assert_eq!(kept[0], other);

    let t = hand(vec![
        m(1), m(2), m(3), m(5), m(6), p(2), p(4), p(7), p(7), s(3), s(5), s(8), z(1), z(2),
    ]);
    let (_, kept) = t.decompose().unwrap();
    for i in 0..kept.len() {
        for j in 0..i {
            assert!(kept[i] != kept[j]);
        }
    }
}

#[test]
fn split_method_adds_to_what_is_there() {
    let t = hand(vec![m(1), m(1)]);
    let mut out: Vec<Decomposer> = vec![Decomposer::new()];
    t.split(&mut out, Decomposer::new());
    assert_eq!(out.len(), 3);
    assert_eq!(out[0], Decomposer::new());
}

#[test]
fn check_hai_number_names_the_fifth_tile() {
    let t = Tehai { juntehai: vec![m(1), m(2), m(2), m(2), m(2)], fuuro: vec![Mentsu::Juntsu(m(1), m(2), m(3))] };
    assert_eq!(t.check_hai_number(), Err(m(2)));
    let t = Tehai { juntehai: vec![m(1), m(2)], fuuro: vec![Mentsu::Kantsu(z(1))] };
    assert_eq!(t.check_hai_number(), Ok(()));
}

#[test]
fn shanten_is_never_below_minus_one() {
    let hands: Vec<Vec<Hai>> = vec![
        vec![m(1), m(1)],
        vec![m(1), z(1)],
        vec![m(1), m(1), m(1), m(2), m(3)],
        vec![m(2), m(2), m(2), m(2), m(3), m(3), m(3), m(3)],
        vec![p(1), p(1), p(1), p(1), p(2), p(2), p(2), p(2), p(3), p(3), p(3), p(3), p(4), p(4)],
        vec![z(1), z(1), z(1), z(2), z(2), z(2), z(3), z(3), z(3), z(4), z(4), z(4), z(5), z(5)],
    ];
    for tiles in hands {
        let t = hand(tiles);
        let (shanten, conditions) = t.analyze().unwrap();
        assert!(shanten >= -1);
        assert_eq!(shanten == -1, conditions.is_empty() && t.decompose().unwrap().0 == -1);
        let (_, kept) = t.decompose().unwrap();
        assert!(!kept.is_empty());
        for d in kept.iter() {
            assert_eq!(d.shanten(t.juntehai.len()), shanten);
        }
    }
}

#[test]
fn handle_taatsu_waits_for_the_completing_tiles() {
    let mut d = Decomposer::new();
    d.taatsu_vec.push(mahjong::block::Taatsu(m(1), m(2)));
    d.taatsu_vec.push(mahjong::block::Taatsu(p(4), p(5)));
    d.taatsu_vec.push(mahjong::block::Taatsu(s(7), s(9)));
    let mut c = MachiCondition::new(z(1));
    assert_eq!(c.nokori(), 0);
    assert_eq!(c.handle_taatsu(&d), Ok(()));
    assert_eq!(c.machihai_list(), vec![(m(3), 4), (p(3), 4), (p(6), 4), (s(8), 4)]);
    assert_eq!(c.nokori(), 16);
    assert_eq!(c.sutehai, z(1));

    c.finally(&vec![m(3), p(3), p(3), p(3), p(3), p(3), s(1), z(9)]);
    assert_eq!(c.machihai_list(), vec![(m(3), 3), (p(6), 4), (s(8), 4)]);
    assert_eq!(c.nokori(), 11);
}

#[test]
fn handle_refuses_what_the_analysis_never_hands_it() {
    let mut broken = Decomposer::new();
    broken.taatsu_vec.push(mahjong::block::Taatsu(m(1), p(2)));
    let mut c = MachiCondition::new(z(1));
    assert_eq!(c.handle_taatsu(&broken), Err(AnalyzeError::Logic));

    let mut complete = Decomposer::new();
    complete.toitsu_vec.push(mahjong::block::Toitsu(m(1)));
    assert_eq!(complete.shanten(2), -1);
    let mut c = MachiCondition::new(m(1));
    assert_eq!(c.handle(&complete, 2), Err(AnalyzeError::Logic));
    assert_eq!(c.nokori(), 0);
}

#[test]
fn handle_skips_a_decomposition_without_the_sutehai() {
    let mut d = Decomposer::new();
    d.taatsu_vec.push(mahjong::block::Taatsu(m(1), m(2)));
    d.invalid_ukihai_vec.push(mahjong::block::Ukihai(z(2)));
    d.invalid_ukihai_vec.push(mahjong::block::Ukihai(z(3)));
    d.invalid_ukihai_vec.push(mahjong::block::Ukihai(z(4)));
    // 5 tiles: one taatsu is all the hand has room for beside a toitsu.
    assert_eq!(d.shanten(5), 1);
    let mut c = MachiCondition::new(z(1));
    assert_eq!(c.handle(&d, 5), Ok(()));
    assert_eq!(c.nokori(), 0);
    let mut c = MachiCondition::new(z(2));
    assert_eq!(c.handle(&d, 5), Ok(()));
    assert_eq!(c.machihai_list(), vec![(m(3), 4), (z(3), 4), (z(4), 4)]);
}
