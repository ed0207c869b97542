use vstd::prelude::*;
use crate::hai::Hai;
use crate::block::{Toitsu, Ukihai};
use crate::decomposer::{Decomposer, Hourakei, Shape};

verus! {

/// The tile at `j` equals the one before it.
pub open spec fn same_as_previous(tiles: Seq<Hai>, j: int) -> bool {
    1 <= j < tiles.len() && tiles[j] == tiles[j - 1]
}

/// The tile at `j` is the second of a run of equal tiles.
pub open spec fn second_copy(tiles: Seq<Hai>, j: int) -> bool {
    same_as_previous(tiles, j) && !same_as_previous(tiles, j - 1)
}

/// The tile at `j` is the third or a later one of a run of equal tiles.
pub open spec fn later_copy(tiles: Seq<Hai>, j: int) -> bool {
    same_as_previous(tiles, j) && same_as_previous(tiles, j - 1)
}

/// The tile at `j` differs from both neighbours.
pub open spec fn lone_copy(tiles: Seq<Hai>, j: int) -> bool {
    0 <= j < tiles.len() && !same_as_previous(tiles, j) && !same_as_previous(tiles, j + 1)
}

/// The chiitoitsu decomposition of the first `k` tiles of an ascending hand:
/// the second tile of a run is a toitsu, each later one a useless ukihai,
/// and a tile that stands alone a useful ukihai.
pub open spec fn chiitoitsu_scan(tiles: Seq<Hai>, k: int) -> Shape
    decreases k,
{
    if k <= 0 {
        Shape::empty(Hourakei::Chiitoitsu)
    } else {
        let p = chiitoitsu_scan(tiles, k - 1);
        let j = k - 1;
        if second_copy(tiles, j) {
            p.push_toitsu(tiles[j])
        } else if later_copy(tiles, j) {
            p.push_invalid(tiles[j])
        } else if lone_copy(tiles, j) {
            p.push_valid(tiles[j])
        } else {
            p
        }
    }
}

/// The chiitoitsu decomposition of a hand.
pub open spec fn chiitoitsu_spec(tiles: Seq<Hai>) -> Shape {
    chiitoitsu_scan(tiles, tiles.len() as int)
}

/// 1 if the tile at `k` will close a toitsu whose first tile is at `k - 1`.
pub open spec fn pending(tiles: Seq<Hai>, k: int) -> int {
    if second_copy(tiles, k) { 1 } else { 0 }
}

pub proof fn lemma_chiitoitsu_scan_count(tiles: Seq<Hai>, k: int)
    requires
        0 <= k <= tiles.len(),
    ensures
        chiitoitsu_scan(tiles, k).tile_count() + pending(tiles, k) == k,
        chiitoitsu_scan(tiles, k).hourakei == Hourakei::Chiitoitsu,
        chiitoitsu_scan(tiles, k).taatsu.len() == 0,
    decreases k,
{
    if k > 0 {
        lemma_chiitoitsu_scan_count(tiles, k - 1);
    }
}

/// The chiitoitsu decomposition of a hand of 14 tiles holds them all.
pub proof fn lemma_chiitoitsu_fits(tiles: Seq<Hai>)
    requires
        tiles.len() == 14,
    ensures
        chiitoitsu_spec(tiles).fits(14),
{
    lemma_chiitoitsu_scan_count(tiles, 14);
}

/// An earlier position than `k` holds a second or later copy of a yaochuupai.
pub open spec fn yaochuu_pair_before(tiles: Seq<Hai>, k: int) -> bool
    decreases k,
{
    k > 0 && (yaochuu_pair_before(tiles, k - 1) || (same_as_previous(tiles, k - 1) && tiles[k
        - 1].is_yaochuupai_spec()))
}

/// The kokushimusou decomposition of the first `k` tiles of an ascending hand:
/// the first tile of each yaochuupai type is useful, and so is the first
/// repeated yaochuupai of the hand; every other tile is useless.
pub open spec fn kokushimusou_scan(tiles: Seq<Hai>, k: int) -> Shape
    decreases k,
{
    if k <= 0 {
        Shape::empty(Hourakei::Kokushimusou)
    } else {
        let p = kokushimusou_scan(tiles, k - 1);
        let j = k - 1;
        if !tiles[j].is_yaochuupai_spec() {
            p.push_invalid(tiles[j])
        } else if !same_as_previous(tiles, j) || !yaochuu_pair_before(tiles, j) {
            p.push_valid(tiles[j])
        } else {
            p.push_invalid(tiles[j])
        }
    }
}

/// The kokushimusou decomposition of a hand.
pub open spec fn kokushimusou_spec(tiles: Seq<Hai>) -> Shape {
    kokushimusou_scan(tiles, tiles.len() as int)
}

pub proof fn lemma_kokushimusou_scan_count(tiles: Seq<Hai>, k: int)
    requires
        0 <= k <= tiles.len(),
    ensures
        kokushimusou_scan(tiles, k).tile_count() == k,
        kokushimusou_scan(tiles, k).hourakei == Hourakei::Kokushimusou,
        kokushimusou_scan(tiles, k).taatsu.len() == 0,
    decreases k,
{
    if k > 0 {
        lemma_kokushimusou_scan_count(tiles, k - 1);
    }
}

/// The kokushimusou decomposition of a hand of 14 tiles holds them all.
pub proof fn lemma_kokushimusou_fits(tiles: Seq<Hai>)
    requires
        tiles.len() == 14,
    ensures
        kokushimusou_spec(tiles).fits(14),
{
    lemma_kokushimusou_scan_count(tiles, 14);
}

/// Decompose a hand for chiitoitsu.
pub fn decompose_chiitoitsu(tiles: &Vec<Hai>) -> (d: Decomposer)
    ensures
        d@ == chiitoitsu_spec(tiles@),
{
    let mut d = Decomposer::new();
    d.hourakei = Hourakei::Chiitoitsu;
    let n: usize = tiles.len();
    let mut j: usize = 0;
    while j < n
        invariant
            j <= n,
            n == tiles@.len(),
            d@ == chiitoitsu_scan(tiles@, j as int),
        decreases n - j,
    {
        let cur: Hai = tiles[j];
        let same_previous: bool = j >= 1 && tiles[j - 1] == cur;
        let previous_same: bool = j >= 2 && tiles[j - 1] == tiles[j - 2];
        let same_next: bool = j + 1 < n && tiles[j + 1] == cur;
        if same_previous && !previous_same {
            d.toitsu_vec.push(Toitsu(cur));
        } else if same_previous {
            d.invalid_ukihai_vec.push(Ukihai(cur));
        } else if !same_next {
            d.valid_ukihai_vec.push(Ukihai(cur));
        }
        j += 1;
    }
    d
}

/// Decompose a hand for kokushimusou.
pub fn decompose_kokushimusou(tiles: &Vec<Hai>) -> (d: Decomposer)
    ensures
        d@ == kokushimusou_spec(tiles@),
{
    let mut d = Decomposer::new();
    d.hourakei = Hourakei::Kokushimusou;
    let n: usize = tiles.len();
    let mut toitsu_included: bool = false;
    let mut j: usize = 0;
    while j < n
        invariant
            j <= n,
            n == tiles@.len(),
            d@ == kokushimusou_scan(tiles@, j as int),
            toitsu_included == yaochuu_pair_before(tiles@, j as int),
        decreases n - j,
    {
        let cur: Hai = tiles[j];
        let repeated: bool = j >= 1 && tiles[j - 1] == cur;
        if !cur.is_yaochuupai() {
            d.invalid_ukihai_vec.push(Ukihai(cur));
        } else if !repeated {
            d.valid_ukihai_vec.push(Ukihai(cur));
        } else if !toitsu_included {
            toitsu_included = true;
            d.valid_ukihai_vec.push(Ukihai(cur));
        } else {
            d.invalid_ukihai_vec.push(Ukihai(cur));
        }
        j += 1;
    }
    d
}

/// Fourteen tiles that are seven pairs of seven different tiles, pair after pair.
pub open spec fn seven_pairs(tiles: Seq<Hai>) -> bool {
    &&& tiles.len() == 14
    &&& forall|i: int| 0 <= i < 14 && i % 2 == 1 ==> #[trigger] tiles[i] == tiles[i - 1]
    &&& forall|i: int| 0 < i < 14 && i % 2 == 0 ==> #[trigger] tiles[i] != tiles[i - 1]
}

proof fn lemma_seven_pairs_scan(tiles: Seq<Hai>, k: int)
    requires
        seven_pairs(tiles),
        0 <= k <= 14,
    ensures
        chiitoitsu_scan(tiles, k).toitsu.len() == k / 2,
    decreases k,
{
    if k > 0 {
        lemma_seven_pairs_scan(tiles, k - 1);
        let j = k - 1;
        if j % 2 == 1 {
            assert(tiles[j] == tiles[j - 1]);
            if j >= 2 {
                assert(tiles[j - 1] != tiles[j - 2]);
            }
            assert(second_copy(tiles, j));
        } else {
            if j > 0 {
                assert(tiles[j] != tiles[j - 1]);
            }
            assert(tiles[j + 1] == tiles[j]);
            assert(!second_copy(tiles, j) && !later_copy(tiles, j) && !lone_copy(tiles, j));
        }
    }
}

/// Seven pairs of seven different tiles have shanten -1 as chiitoitsu.
pub proof fn lemma_seven_pairs_complete(tiles: Seq<Hai>)
    requires
        seven_pairs(tiles),
    ensures
        chiitoitsu_spec(tiles).toitsu.len() == 7,
        chiitoitsu_spec(tiles).shanten(14) == -1,
{
    lemma_seven_pairs_scan(tiles, 14);
    lemma_chiitoitsu_scan_count(tiles, 14);
}

/// Fourteen yaochuupai of which at most one equals the tile before it: in
/// ascending order these are the thirteen types and one of them twice.
pub open spec fn thirteen_orphans(tiles: Seq<Hai>) -> bool {
    &&& tiles.len() == 14
    &&& forall|i: int| 0 <= i < 14 ==> (#[trigger] tiles[i]).is_yaochuupai_spec()
    &&& forall|i: int, j: int|
        1 <= i < j < 14 && #[trigger] tiles[i] == tiles[i - 1] ==> #[trigger] tiles[j] != tiles[j - 1]
}

proof fn lemma_thirteen_orphans_scan(tiles: Seq<Hai>, k: int)
    requires
        thirteen_orphans(tiles),
        0 <= k <= 14,
    ensures
        kokushimusou_scan(tiles, k).valid_ukihai.len() == k,
        yaochuu_pair_before(tiles, k) ==> exists|i: int|
            1 <= i < k && #[trigger] tiles[i] == tiles[i - 1],
    decreases k,
{
    if k > 0 {
        lemma_thirteen_orphans_scan(tiles, k - 1);
        let j = k - 1;
        assert(tiles[j].is_yaochuupai_spec());
        if same_as_previous(tiles, j) && yaochuu_pair_before(tiles, j) {
            let i = choose|i: int| 1 <= i < j && #[trigger] tiles[i] == tiles[i - 1];
            assert(tiles[j] != tiles[j - 1]);
        }
        if yaochuu_pair_before(tiles, k) {
            if same_as_previous(tiles, j) {
                assert(tiles[j] == tiles[j - 1]);
            } else {
                let i = choose|i: int| 1 <= i < j && #[trigger] tiles[i] == tiles[i - 1];
                assert(tiles[i] == tiles[i - 1]);
            }
        }
    }
}

/// The thirteen yaochuupai types with one of them twice have shanten -1 as kokushimusou.
pub proof fn lemma_thirteen_orphans_complete(tiles: Seq<Hai>)
    requires
        thirteen_orphans(tiles),
    ensures
        kokushimusou_spec(tiles).valid_ukihai.len() == 14,
        kokushimusou_spec(tiles).shanten(14) == -1,
{
    lemma_thirteen_orphans_scan(tiles, 14);
    lemma_kokushimusou_scan_count(tiles, 14);
}

proof fn lemma_scan_grows(tiles: Seq<Hai>, k: int, m: int)
    requires
        0 <= k <= m,
    ensures
        chiitoitsu_scan(tiles, k).valid_ukihai.len() <= chiitoitsu_scan(tiles, m).valid_ukihai.len(),
        chiitoitsu_scan(tiles, k).invalid_ukihai.len() <= chiitoitsu_scan(
            tiles,
            m,
        ).invalid_ukihai.len(),
        kokushimusou_scan(tiles, k).invalid_ukihai.len() <= kokushimusou_scan(
            tiles,
            m,
        ).invalid_ukihai.len(),
    decreases m - k,
{
    if k < m {
        lemma_scan_grows(tiles, k, m - 1);
    }
}

/// The tile at an even place starts a pair, the tile at an odd place closes it.
pub open spec fn in_pair(tiles: Seq<Hai>, j: int) -> bool {
    if j % 2 == 0 {
        !same_as_previous(tiles, j) && same_as_previous(tiles, j + 1)
    } else {
        second_copy(tiles, j)
    }
}

proof fn lemma_seven_toitsu_scan(tiles: Seq<Hai>, k: int)
    requires
        tiles.len() == 14,
        0 <= k <= 14,
        chiitoitsu_scan(tiles, 14).valid_ukihai.len() == 0,
        chiitoitsu_scan(tiles, 14).invalid_ukihai.len() == 0,
    ensures
        forall|j: int| 0 <= j < k ==> #[trigger] in_pair(tiles, j),
    decreases k,
{
    if k > 0 {
        lemma_seven_toitsu_scan(tiles, k - 1);
        let j = k - 1;
        lemma_scan_grows(tiles, k, 14);
        lemma_scan_grows(tiles, k - 1, k);
        lemma_scan_grows(tiles, 0, k - 1);
        if j > 0 {
            assert(in_pair(tiles, j - 1));
        }
        if j % 2 == 0 {
            assert(!later_copy(tiles, j));
            assert(!lone_copy(tiles, j));
        }
        assert(in_pair(tiles, j));
    }
}

/// Fourteen tiles make seven toitsu as chiitoitsu exactly when they are
/// seven pairs of seven different tiles, pair after pair.
pub proof fn lemma_seven_toitsu_iff_seven_pairs(tiles: Seq<Hai>)
    requires
        tiles.len() == 14,
    ensures
        chiitoitsu_spec(tiles).toitsu.len() == 7 <==> seven_pairs(tiles),
{
    if seven_pairs(tiles) {
        lemma_seven_pairs_complete(tiles);
    }
    if chiitoitsu_spec(tiles).toitsu.len() == 7 {
        lemma_chiitoitsu_scan_count(tiles, 14);
        lemma_seven_toitsu_scan(tiles, 14);
        assert forall|i: int| 0 <= i < 14 && i % 2 == 1 implies #[trigger] tiles[i] == tiles[i
            - 1] by {
            assert(in_pair(tiles, i));
        }
        assert forall|i: int| 0 < i < 14 && i % 2 == 0 implies #[trigger] tiles[i] != tiles[i
            - 1] by {
            assert(in_pair(tiles, i));
        }
    }
}

proof fn lemma_fourteen_useful_scan(tiles: Seq<Hai>, k: int)
    requires
        tiles.len() == 14,
        0 <= k <= 14,
        kokushimusou_scan(tiles, 14).invalid_ukihai.len() == 0,
    ensures
        forall|j: int| 0 <= j < k ==> (#[trigger] tiles[j]).is_yaochuupai_spec(),
        forall|i: int, j: int|
            1 <= i < j < k && #[trigger] tiles[i] == tiles[i - 1] ==> #[trigger] tiles[j] != tiles[j
                - 1],
        !yaochuu_pair_before(tiles, k) ==> forall|i: int|
            1 <= i < k ==> #[trigger] tiles[i] != tiles[i - 1],
    decreases k,
{
    if k > 0 {
        lemma_fourteen_useful_scan(tiles, k - 1);
        let j = k - 1;
        lemma_scan_grows(tiles, k, 14);
        lemma_scan_grows(tiles, k - 1, k);
        assert(tiles[j].is_yaochuupai_spec());
        if same_as_previous(tiles, j) {
            assert(!yaochuu_pair_before(tiles, j));
        }
    }
}

/// Fourteen tiles make fourteen useful ukihai as kokushimusou exactly when
/// all are yaochuupai and at most one equals the tile before it.
pub proof fn lemma_fourteen_useful_iff_thirteen_orphans(tiles: Seq<Hai>)
    requires
        tiles.len() == 14,
    ensures
        kokushimusou_spec(tiles).valid_ukihai.len() == 14 <==> thirteen_orphans(tiles),
{
    if thirteen_orphans(tiles) {
        lemma_thirteen_orphans_complete(tiles);
    }
    if kokushimusou_spec(tiles).valid_ukihai.len() == 14 {
        lemma_kokushimusou_scan_count(tiles, 14);
        lemma_fourteen_useful_scan(tiles, 14);
    }
}

} // verus!
