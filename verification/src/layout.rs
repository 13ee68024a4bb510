//! Lineups and their placement on the pitch grid.
//!
//! A player's reported position is a pair of thousandth fractions of the
//! pitch: `x_pos` runs along the pitch from the own goal toward the
//! opponent's goal, `y_pos` across it. The along-pitch coordinate picks a
//! grid row band, the across-pitch coordinate a column offset within the
//! team's half; the away team is mirrored so that both teams face each
//! other across the midline. Writes that leave the grid are clipped.

use vstd::prelude::*;
use vstd::multiset::Multiset;
use crate::pitch::COL_BANDS;
use crate::pitch::LAST_COL;
use crate::pitch::PitchGrid;
use crate::pitch::ROW_BANDS;
use crate::pitch::ROW_LEN;
use crate::pitch::write_cell;

verus! {

/// One thousandth steps: a position coordinate of `1000` stands for the
/// far end of its axis.
pub const POS_UNIT: u32 = 1000;

/// Spec-level image of a player.
pub ghost struct PlayerView {
    pub x_pos: int,
    pub y_pos: int,
    pub name: Seq<char>,
    pub number: int,
}

/// A starting player: shirt number, display name, and reported position
/// in thousandths of the pitch's extent per axis.
#[derive(Debug, PartialEq)]
pub struct Player {
    pub x_pos: u32,
    pub y_pos: u32,
    pub name: String,
    pub number: u8,
}

impl View for Player {
    type V = PlayerView;

    open spec fn view(&self) -> PlayerView {
        PlayerView {
            x_pos: self.x_pos as int,
            y_pos: self.y_pos as int,
            name: self.name@,
            number: self.number as int,
        }
    }
}

impl DeepView for Player {
    type V = PlayerView;

    open spec fn deep_view(&self) -> PlayerView {
        self.view()
    }
}

/// A team's starting lineup: the team name and the players in their
/// reported order.
#[derive(Debug, PartialEq)]
pub struct LineUp {
    pub team: String,
    pub players: Vec<Player>,
}

impl LineUp {
    /// Shirt numbers have at most two digits.
    pub open spec fn wf(&self) -> bool {
        forall|i: int|
            0 <= i < self.players@.len() ==> (#[trigger] self.players@[i])@.number <= 99
    }

    /// An empty lineup with an empty team name.
    pub fn new() -> (l: LineUp)
        ensures
            l.team@.len() == 0,
            l.players@.len() == 0,
            l.wf(),
    {
        LineUp { team: String::new(), players: Vec::new() }
    }
}

/// The character of a single decimal digit.
pub open spec fn digit_char(d: int) -> char {
    if d == 0 {
        '0'
    } else if d == 1 {
        '1'
    } else if d == 2 {
        '2'
    } else if d == 3 {
        '3'
    } else if d == 4 {
        '4'
    } else if d == 5 {
        '5'
    } else if d == 6 {
        '6'
    } else if d == 7 {
        '7'
    } else if d == 8 {
        '8'
    } else {
        '9'
    }
}

/// The character of a single decimal digit, computed.
pub(crate) fn digit(d: u8) -> (ch: char)
    requires
        d <= 9,
    ensures
        ch == digit_char(d as int),
{
    if d == 0 {
        '0'
    } else if d == 1 {
        '1'
    } else if d == 2 {
        '2'
    } else if d == 3 {
        '3'
    } else if d == 4 {
        '4'
    } else if d == 5 {
        '5'
    } else if d == 6 {
        '6'
    } else if d == 7 {
        '7'
    } else if d == 8 {
        '8'
    } else {
        '9'
    }
}

/// The grid row band an along-pitch coordinate falls in: one of the 17
/// interior rows below the top border.
pub open spec fn row_of(x: int) -> int {
    (ROW_BANDS as int) * x / (POS_UNIT as int) + 1
}

/// The column offset an across-pitch coordinate falls at within a half.
pub open spec fn col_base(y: int) -> int {
    (COL_BANDS as int) * y / (POS_UNIT as int)
}

/// The column of a home shirt number's first digit: the offset from the
/// left border, pushed clear of it for all but the smallest offsets.
pub open spec fn home_first_col(y: int) -> int {
    let c = col_base(y);
    if c > 1 {
        c + 6
    } else {
        c + 1
    }
}

/// The column of an away shirt number's first digit: the same offset
/// taken from the right edge instead of the left.
pub open spec fn away_first_col(y: int) -> int {
    let c = col_base(y);
    if c > 1 {
        (ROW_LEN as int) - (c + 8)
    } else {
        (ROW_LEN as int) - (c + 3)
    }
}

/// Mirroring invariant: for one and the same across-pitch coordinate,
/// the away shirt number's two cells are exactly the mirror image, about
/// the last column, of the home shirt number's two cells (the digits
/// swap places under the reflection, so the number still reads
/// left-to-right).
pub proof fn lemma_away_mirrors_home(y: int)
    ensures
        away_first_col(y) == (LAST_COL as int) - (home_first_col(y) + 1),
        away_first_col(y) + 1 == (LAST_COL as int) - home_first_col(y),
{
}

/// The grid after writing a home player's two-digit shirt number: the
/// tens digit at `(row_of(x), home_first_col(y))`, the ones digit one
/// column further, each write clipped at the grid's bounds.
pub open spec fn place_home_spec(g: Seq<Seq<char>>, p: PlayerView) -> Seq<Seq<char>> {
    let r = row_of(p.x_pos);
    let c1 = home_first_col(p.y_pos);
    let g1 = write_cell(g, r, c1, digit_char(p.number / 10));
    write_cell(g1, r, c1 + 1, digit_char(p.number % 10))
}

/// The grid after writing an away player's shirt number: the along-pitch
/// coordinate is mirrored before the row is chosen, and the columns are
/// taken from the right edge; a player reported beyond the far end of
/// the pitch is dropped entirely.
pub open spec fn place_away_spec(g: Seq<Seq<char>>, p: PlayerView) -> Seq<Seq<char>> {
    if p.x_pos > POS_UNIT as int {
        g
    } else {
        let r = row_of(POS_UNIT as int - p.x_pos);
        let c1 = away_first_col(p.y_pos);
        let g1 = write_cell(g, r, c1, digit_char(p.number / 10));
        write_cell(g1, r, c1 + 1, digit_char(p.number % 10))
    }
}

/// The grid after writing a whole team, first player first.
pub open spec fn place_team_spec(g: Seq<Seq<char>>, ps: Seq<PlayerView>, home: bool) -> Seq<
    Seq<char>,
>
    decreases ps.len(),
{
    if ps.len() == 0 {
        g
    } else {
        let g1 = place_team_spec(g, ps.drop_last(), home);
        if home {
            place_home_spec(g1, ps.last())
        } else {
            place_away_spec(g1, ps.last())
        }
    }
}

/// Write one home player's shirt number into the grid.
pub fn place_home_player(grid: &mut PitchGrid, p: &Player)
    requires
        p@.number <= 99,
    ensures
        final(grid)@ == place_home_spec(old(grid)@, p@),
{
    let r: u64 = 17u64 * (p.x_pos as u64) / 1000 + 1;
    let c: u64 = 38u64 * (p.y_pos as u64) / 1000;
    let c1: u64 = if c > 1 {
        c + 6
    } else {
        c + 1
    };
    let d1 = digit(p.number / 10);
    let d2 = digit(p.number % 10);
    grid.set_clipped(r as usize, c1 as usize, d1);
    grid.set_clipped(r as usize, (c1 + 1) as usize, d2);
}

/// Write one away player's shirt number into the grid, mirrored.
pub fn place_away_player(grid: &mut PitchGrid, p: &Player)
    requires
        p@.number <= 99,
    ensures
        final(grid)@ == place_away_spec(old(grid)@, p@),
{
    if p.x_pos > POS_UNIT {
        return ;
    }
    let r: u64 = 17u64 * ((POS_UNIT - p.x_pos) as u64) / 1000 + 1;
    let c: u64 = 38u64 * (p.y_pos as u64) / 1000;
    let d1 = digit(p.number / 10);
    let d2 = digit(p.number % 10);
    let w: u64 = ROW_LEN as u64;
    if c > 1 {
        if c + 8 <= w {
            grid.set_clipped(r as usize, (w - (c + 8)) as usize, d1);
        }
        if c + 7 <= w {
            grid.set_clipped(r as usize, (w - (c + 7)) as usize, d2);
        }
    } else {
        grid.set_clipped(r as usize, (w - (c + 3)) as usize, d1);
        grid.set_clipped(r as usize, (w - (c + 2)) as usize, d2);
    }
}

/// The reading order of the roster listing: smaller across-pitch
/// coordinate first, and among equals smaller along-pitch coordinate
/// first.
pub open spec fn pos_le(a: PlayerView, b: PlayerView) -> bool {
    a.y_pos < b.y_pos || (a.y_pos == b.y_pos && a.x_pos <= b.x_pos)
}

/// Every pair of players stands in reading order.
pub open spec fn sorted_by_pos(s: Seq<PlayerView>) -> bool {
    forall|i: int, j: int| 0 <= i < j < s.len() ==> pos_le(s[i], s[j])
}

/// Whether `a` comes no later than `b` in the visual reading order.
fn pos_before(a: &Player, b: &Player) -> (r: bool)
    ensures
        r == pos_le(a@, b@),
{
    a.y_pos < b.y_pos || (a.y_pos == b.y_pos && a.x_pos <= b.x_pos)
}

/// Inserting an element anywhere adds exactly it to the sequence's
/// multiset of elements.
proof fn lemma_insert_to_multiset(s: Seq<PlayerView>, j: int, x: PlayerView)
    requires
        0 <= j <= s.len(),
    ensures
        s.insert(j, x).to_multiset() == s.to_multiset().insert(x),
{
    broadcast use vstd::seq_lib::group_to_multiset_ensures;
    broadcast use vstd::multiset::group_multiset_axioms;

    let t = s.insert(j, x);
    assert(t.remove(j) =~= s);
    assert(t[j] == x);
    assert(t.remove(j).to_multiset() =~= t.to_multiset().remove(t[j]));
    assert(t.contains(x));
    assert(t.to_multiset().count(x) > 0);
    assert forall|a: PlayerView| t.to_multiset().count(a) == s.to_multiset().insert(x).count(a) by {
        assert(s.to_multiset().count(a) == t.to_multiset().remove(x).count(a));
    }
    assert(t.to_multiset() =~= s.to_multiset().insert(x));
}

/// Removing one occurrence of a held element and putting it back changes
/// nothing.
proof fn lemma_multiset_remove_insert(m: Multiset<PlayerView>, x: PlayerView)
    requires
        m.count(x) > 0,
    ensures
        m.remove(x).insert(x) == m,
{
    broadcast use vstd::multiset::group_multiset_axioms;

    assert(m.remove(x).insert(x) =~= m);
}

/// The players standing at exactly the given position.
pub open spec fn same_pos(y: int, x: int) -> spec_fn(PlayerView) -> bool {
    |p: PlayerView| p.y_pos == y && p.x_pos == x
}

/// A sequence with no element satisfying the predicate filters to
/// nothing.
proof fn lemma_filter_none(s: Seq<PlayerView>, pred: spec_fn(PlayerView) -> bool)
    requires
        forall|k: int| 0 <= k < s.len() ==> !pred(#[trigger] s[k]),
    ensures
        s.filter(pred) == Seq::<PlayerView>::empty(),
    decreases s.len(),
{
    reveal(Seq::filter);
    if s.len() > 0 {
        lemma_filter_none(s.drop_last(), pred);
        assert(s.filter(pred) =~= Seq::<PlayerView>::empty());
    } else {
        assert(s.filter(pred) =~= Seq::<PlayerView>::empty());
    }
}

/// Moving one player to the left across players that all stand strictly
/// later in the reading order keeps every equal-position subsequence as
/// it was.
proof fn lemma_move_left_stable(s: Seq<PlayerView>, i: int, j: int, y: int, x: int)
    requires
        0 <= j <= i < s.len(),
        forall|k: int| j <= k < i ==> !pos_le(#[trigger] s[k], s[i]),
    ensures
        s.remove(i).insert(j, s[i]).filter(same_pos(y, x)) == s.filter(same_pos(y, x)),
{
    let p = s[i];
    let pred = same_pos(y, x);
    let a1 = s.take(j);
    let a2 = s.subrange(j, i);
    let b = s.skip(i + 1);
    let t = s.remove(i).insert(j, p);
    assert(s =~= a1 + a2 + seq![p] + b);
    assert(t =~= a1 + seq![p] + a2 + b);
    Seq::filter_distributes_over_add(a1 + a2 + seq![p], b, pred);
    Seq::filter_distributes_over_add(a1 + a2, seq![p], pred);
    Seq::filter_distributes_over_add(a1, a2, pred);
    Seq::filter_distributes_over_add(a1 + seq![p] + a2, b, pred);
    Seq::filter_distributes_over_add(a1 + seq![p], a2, pred);
    Seq::filter_distributes_over_add(a1, seq![p], pred);
    if pred(p) {
        assert forall|k: int| 0 <= k < a2.len() implies !pred(#[trigger] a2[k]) by {
            assert(a2[k] == s[j + k]);
            assert(!pos_le(s[j + k], p));
        }
        lemma_filter_none(a2, pred);
        assert(s.filter(pred) =~= t.filter(pred));
    } else {
        lemma_filter_none(seq![p], pred);
        assert(s.filter(pred) =~= t.filter(pred));
    }
}

/// Two sequences with the same multiset of players bound their shirt
/// numbers alike.
proof fn lemma_same_multiset_same_bound(s1: Seq<PlayerView>, s2: Seq<PlayerView>)
    requires
        s1.to_multiset() == s2.to_multiset(),
        forall|k: int| 0 <= k < s1.len() ==> (#[trigger] s1[k]).number <= 99,
    ensures
        forall|k: int| 0 <= k < s2.len() ==> (#[trigger] s2[k]).number <= 99,
{
    broadcast use vstd::seq_lib::group_to_multiset_ensures;

    assert forall|k: int| 0 <= k < s2.len() implies (#[trigger] s2[k]).number <= 99 by {
        assert(s2.contains(s2[k]));
        assert(s2.to_multiset().count(s2[k]) > 0);
        assert(s1.to_multiset().count(s2[k]) > 0);
        assert(s1.contains(s2[k]));
        let idx = choose|t: int| 0 <= t < s1.len() && s1[t] == s2[k];
        assert(s1[idx].number <= 99);
    }
}

/// Re-order the players into the reading order used by the roster
/// listing: across-pitch coordinate first, along-pitch coordinate
/// second, both ascending. The players themselves — as a multiset —
/// and the team name stay what they were, and the sort is stable:
/// players reported at one and the same position keep their relative
/// order.
pub fn sort_players(l: &mut LineUp)
    ensures
        final(l).team == old(l).team,
        final(l).players.deep_view().to_multiset() == old(l).players.deep_view().to_multiset(),
        sorted_by_pos(final(l).players.deep_view()),
        forall|y: int, x: int|
            #[trigger] final(l).players.deep_view().filter(same_pos(y, x)) == old(
                l,
            ).players.deep_view().filter(same_pos(y, x)),
        old(l).wf() ==> final(l).wf(),
{
    let ghost ms0 = l.players.deep_view().to_multiset();
    let ghost orig = l.players.deep_view();
    let v = &mut l.players;
    let n = v.len();
    if n < 2 {
        proof {
            assert(sorted_by_pos(l.players.deep_view()));
        }
        return ;
    }
    let mut i: usize = 1;
    while i < n
        invariant
            1 <= i <= n,
            v@.len() == n,
            sorted_by_pos(v.deep_view().take(i as int)),
            v.deep_view().to_multiset() == ms0,
            forall|y: int, x: int|
                #[trigger] v.deep_view().filter(same_pos(y, x)) == orig.filter(same_pos(y, x)),
        decreases n - i,
    {
        let ghost vd_start = v.deep_view();
        let p = v.remove(i);
        let ghost vd_rm = v.deep_view();
        proof {
            broadcast use vstd::seq_lib::group_to_multiset_ensures;

            assert(vd_rm =~= vd_start.remove(i as int));
            assert(p@ == vd_start[i as int]);
            assert(vd_start.remove(i as int).to_multiset() =~= vd_start.to_multiset().remove(
                vd_start[i as int],
            ));
            assert(vd_start.contains(vd_start[i as int]));
            assert(vd_start.to_multiset().count(p@) > 0);
            assert(vd_rm.take(i as int) =~= vd_start.take(i as int));
        }
        let mut j: usize = i;
        while j > 0 && !pos_before(&v[j - 1], &p)
            invariant
                j <= i,
                i < n,
                v@.len() == n - 1,
                v.deep_view() == vd_rm,
                forall|k: int| j <= k < i ==> !pos_le(#[trigger] vd_rm[k], p@),
            decreases j,
        {
            j = j - 1;
        }
        v.insert(j, p);
        proof {
            let vd_new = v.deep_view();
            assert(vd_new =~= vd_rm.insert(j as int, p@));
            lemma_insert_to_multiset(vd_rm, j as int, p@);
            lemma_multiset_remove_insert(vd_start.to_multiset(), p@);
            assert(vd_new.to_multiset() == ms0);
            assert(forall|k: int| 0 <= k < j ==> vd_new[k] == vd_rm[k]);
            assert(vd_new[j as int] == p@);
            assert(forall|k: int| j < k <= vd_rm.len() ==> vd_new[k] == vd_rm[k - 1]);
            assert(j > 0 ==> pos_le(vd_rm[j - 1], p@));
            assert forall|a: int, b: int|
                0 <= a < b < i + 1 implies pos_le(
                #[trigger] vd_new.take(i + 1)[a],
                #[trigger] vd_new.take(i + 1)[b],
            ) by {
                assert(vd_new.take(i + 1)[a] == vd_new[a]);
                assert(vd_new.take(i + 1)[b] == vd_new[b]);
                assert(sorted_by_pos(vd_rm.take(i as int)));
                if b < j {
                    assert(pos_le(vd_rm[a], vd_rm[b]));
                } else if b == j {
                    if a < j {
                        if a < j - 1 {
                            assert(pos_le(vd_rm[a], vd_rm[j - 1]));
                        }
                        assert(pos_le(vd_rm[j - 1], p@));
                        assert(pos_le(vd_rm[a], p@));
                    }
                } else {
                    if a < j {
                        assert(pos_le(vd_rm[a], vd_rm[b - 1]));
                    } else if a == j {
                        assert(!pos_le(vd_rm[b - 1], p@));
                        assert(pos_le(p@, vd_rm[b - 1]));
                    } else {
                        assert(pos_le(vd_rm[a - 1], vd_rm[b - 1]));
                    }
                }
            }
            assert(sorted_by_pos(vd_new.take(i + 1)));
            assert forall|y: int, x: int|
                #[trigger] vd_new.filter(same_pos(y, x)) == orig.filter(same_pos(y, x)) by {
                assert(vd_new =~= vd_start.remove(i as int).insert(j as int, vd_start[i as int]));
                assert forall|k: int|
                    j <= k < i implies !pos_le(#[trigger] vd_start[k], vd_start[i as int]) by {
                    assert(vd_start[k] == vd_rm[k]);
                }
                lemma_move_left_stable(vd_start, i as int, j as int, y, x);
                assert(vd_start.filter(same_pos(y, x)) == orig.filter(same_pos(y, x)));
            }
        }
        i = i + 1;
    }
    proof {
        assert(v.deep_view().take(n as int) =~= v.deep_view());
        if old(l).wf() {
            assert forall|k: int| 0 <= k < orig.len() implies (#[trigger] orig[k]).number <= 99 by {
                assert(orig[k] == old(l).players@[k]@);
                assert(old(l).players@[k]@.number <= 99);
            }
            lemma_same_multiset_same_bound(orig, l.players.deep_view());
            assert forall|k: int|
                0 <= k < l.players@.len() implies (#[trigger] l.players@[k])@.number <= 99 by {
                assert(l.players.deep_view()[k] == l.players@[k]@);
                assert(l.players.deep_view()[k].number <= 99);
            }
        }
    }
}

/// Write a whole team's shirt numbers into the grid, the home side from
/// the left edge, the away side mirrored from the right.
pub fn place_lineup(grid: &mut PitchGrid, team: &LineUp, home: bool)
    requires
        team.wf(),
    ensures
        final(grid)@ == place_team_spec(old(grid)@, team.players.deep_view(), home),
{
    let ghost g0: Seq<Seq<char>> = grid@;
    let ghost ps: Seq<PlayerView> = team.players.deep_view();
    let mut i: usize = 0;
    proof {
        assert(ps.take(0) =~= Seq::<PlayerView>::empty());
    }
    while i < team.players.len()
        invariant
            team.wf(),
            i <= team.players@.len(),
            ps == team.players.deep_view(),
            grid@ == place_team_spec(g0, ps.take(i as int), home),
        decreases team.players@.len() - i,
    {
        let p = &team.players[i];
        proof {
            assert(p@ == ps[i as int]);
            assert(ps.take(i + 1).drop_last() =~= ps.take(i as int));
            assert(ps.take(i + 1).last() == ps[i as int]);
        }
        if home {
            place_home_player(grid, p);
        } else {
            place_away_player(grid, p);
        }
        i = i + 1;
    }
    proof {
        assert(ps.take(team.players@.len() as int) =~= ps);
    }
}

} // verus!
