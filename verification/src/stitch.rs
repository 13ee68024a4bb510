//! Stitching the final diagram: team-name header boxes above the grid,
//! junction characters at the seam, and the paired roster listing below.
//!
//! Every produced line is exactly as wide as a grid row; the padding
//! between the two header boxes and between the two roster columns is
//! computed to make that so.

use vstd::prelude::*;
use vstd::string::StringExecFns;
use crate::layout::LineUp;
use crate::layout::Player;
use crate::layout::PlayerView;
use crate::layout::digit;
use crate::layout::digit_char;
use crate::layout::place_lineup;
use crate::layout::place_team_spec;
use crate::pitch::PitchGrid;

verus! {

/// Relies on `String::push`: it appends the given character to the end
/// of the string.
pub assume_specification[ String::push ](s: &mut String, ch: char)
    ensures
        final(s)@ == old(s)@.push(ch),
;

/// `n` copies of one character.
pub open spec fn repeat_char(ch: char, n: int) -> Seq<char> {
    if n <= 0 {
        Seq::empty()
    } else {
        Seq::new(n as nat, |i: int| ch)
    }
}

/// A rounded-corner header box edge sized to a name of `n` characters.
pub open spec fn border_seq(n: int) -> Seq<char> {
    seq!['╭'] + repeat_char('─', n + 2) + seq!['╮']
}

/// The header line: both teams' box tops, padded apart to the grid's
/// exact width.
pub open spec fn header_top_spec(h: Seq<char>, a: Seq<char>) -> Seq<char> {
    border_seq(h.len() as int) + repeat_char(' ', 91 - (h.len() + a.len() + 8)) + border_seq(
        a.len() as int,
    )
}

/// The banner line: each team's name in its box, padded apart to the
/// grid's exact width.
pub open spec fn banner_spec(h: Seq<char>, a: Seq<char>) -> Seq<char> {
    seq!['│', ' '] + h + seq![' ', '│'] + repeat_char(' ', 91 - (h.len() + a.len() + 8)) + seq![
        '│',
        ' ',
    ] + a + seq![' ', '│']
}

/// The grid's top border with the four junction characters overwritten:
/// the outer corners become tees toward the header, and the headers'
/// inner edges join the border.
pub open spec fn seam_spec(row: Seq<char>, hlen: int, alen: int) -> Seq<char> {
    row.update(0, '├').update(hlen + 3, '┴').update(87 - alen, '┴').update(90, '┤')
}

/// A two-digit, zero-padded shirt number.
pub open spec fn two_digits(n: int) -> Seq<char> {
    seq![digit_char(n / 10), digit_char(n % 10)]
}

/// One roster listing line: the home player's number and name on the
/// left, the away player's name and number on the right, the middle
/// padded so the line is exactly as wide as a grid row.
pub open spec fn roster_line_spec(p: PlayerView, q: PlayerView) -> Seq<char> {
    repeat_char(' ', 5) + two_digits(p.number) + repeat_char(' ', 2) + p.name + repeat_char(
        ' ',
        73 - (p.name.len() + q.name.len()),
    ) + q.name + repeat_char(' ', 2) + two_digits(q.number) + repeat_char(' ', 5)
}

/// How many roster lines two teams yield: pairing stops at the shorter
/// roster, and the unmatched remainder of the longer one is not listed.
pub open spec fn pair_count(h: Seq<PlayerView>, a: Seq<PlayerView>) -> int {
    if h.len() <= a.len() {
        h.len() as int
    } else {
        a.len() as int
    }
}

/// The roster listing: the i-th home player beside the i-th away player,
/// in the rosters' (sorted) order.
pub open spec fn roster_lines_spec(h: Seq<PlayerView>, a: Seq<PlayerView>) -> Seq<Seq<char>> {
    Seq::new(pair_count(h, a) as nat, |i: int| roster_line_spec(h[i], a[i]))
}

/// The whole diagram: header, banner, the seam-patched grid with both
/// teams' numbers placed, and the roster listing.
pub open spec fn diagram_spec(
    g0: Seq<Seq<char>>,
    hteam: Seq<char>,
    hp: Seq<PlayerView>,
    ateam: Seq<char>,
    ap: Seq<PlayerView>,
) -> Seq<Seq<char>> {
    let g = place_team_spec(place_team_spec(g0, hp, true), ap, false);
    seq![
        header_top_spec(hteam, ateam),
        banner_spec(hteam, ateam),
        seam_spec(g[0], hteam.len() as int, ateam.len() as int),
    ] + g.skip(1) + roster_lines_spec(hp, ap)
}

/// Append `n` copies of a character to a string.
fn push_repeat(s: &mut String, ch: char, n: usize)
    ensures
        final(s)@ == old(s)@ + repeat_char(ch, n as int),
{
    let ghost s0 = s@;
    let mut i: usize = 0;
    proof {
        assert(s@ =~= s0 + repeat_char(ch, 0));
    }
    while i < n
        invariant
            i <= n,
            s@ == s0 + repeat_char(ch, i as int),
        decreases n - i,
    {
        s.push(ch);
        proof {
            assert(s0 + repeat_char(ch, i + 1) =~= (s0 + repeat_char(ch, i as int)).push(ch));
        }
        i = i + 1;
    }
}

/// The characters of one grid row, as a string.
fn row_string(row: &Vec<char>) -> (s: String)
    ensures
        s@ == row@,
{
    let mut s = String::new();
    let mut i: usize = 0;
    while i < row.len()
        invariant
            i <= row@.len(),
            s@ == row@.take(i as int),
        decreases row@.len() - i,
    {
        s.push(row[i]);
        proof {
            assert(row@.take(i + 1) =~= row@.take(i as int).push(row@[i as int]));
        }
        i = i + 1;
    }
    proof {
        assert(row@.take(row@.len() as int) =~= row@);
    }
    s
}

/// A header box edge sized to the given team name.
fn border_line(name: &String) -> (s: String)
    requires
        name@.len() <= 83,
    ensures
        s@ == border_seq(name@.len() as int),
{
    let mut s = String::new();
    s.push('╭');
    push_repeat(&mut s, '─', name.as_str().unicode_len() + 2);
    s.push('╮');
    proof {
        assert(s@ =~= border_seq(name@.len() as int));
    }
    s
}

/// The header line for a pair of team names.
fn header_line(hteam: &String, ateam: &String) -> (s: String)
    requires
        hteam@.len() + ateam@.len() <= 83,
    ensures
        s@ == header_top_spec(hteam@, ateam@),
{
    let mut s = border_line(hteam);
    let gap: usize = 83 - (hteam.as_str().unicode_len() + ateam.as_str().unicode_len());
    push_repeat(&mut s, ' ', gap);
    let b2 = border_line(ateam);
    s.append(b2.as_str());
    proof {
        assert(s@ =~= header_top_spec(hteam@, ateam@));
    }
    s
}

/// The banner line for a pair of team names.
fn banner_line(hteam: &String, ateam: &String) -> (s: String)
    requires
        hteam@.len() + ateam@.len() <= 83,
    ensures
        s@ == banner_spec(hteam@, ateam@),
{
    let mut s = String::new();
    s.push('│');
    s.push(' ');
    s.append(hteam.as_str());
    s.push(' ');
    s.push('│');
    let gap: usize = 83 - (hteam.as_str().unicode_len() + ateam.as_str().unicode_len());
    push_repeat(&mut s, ' ', gap);
    s.push('│');
    s.push(' ');
    s.append(ateam.as_str());
    s.push(' ');
    s.push('│');
    proof {
        assert(s@ =~= banner_spec(hteam@, ateam@));
    }
    s
}

/// One roster listing line for a pair of players.
fn roster_line(p: &Player, q: &Player) -> (s: String)
    requires
        p@.number <= 99,
        q@.number <= 99,
        p@.name.len() + q@.name.len() <= 73,
    ensures
        s@ == roster_line_spec(p@, q@),
{
    let mut s = String::new();
    push_repeat(&mut s, ' ', 5);
    s.push(digit(p.number / 10));
    s.push(digit(p.number % 10));
    push_repeat(&mut s, ' ', 2);
    s.append(p.name.as_str());
    let gap: usize = 73 - (p.name.as_str().unicode_len() + q.name.as_str().unicode_len());
    push_repeat(&mut s, ' ', gap);
    s.append(q.name.as_str());
    push_repeat(&mut s, ' ', 2);
    s.push(digit(q.number / 10));
    s.push(digit(q.number % 10));
    push_repeat(&mut s, ' ', 5);
    proof {
        assert(s@ =~= roster_line_spec(p@, q@));
    }
    s
}

/// Placing a whole team never changes the grid's shape.
pub proof fn lemma_place_team_shape(g: Seq<Seq<char>>, ps: Seq<PlayerView>, home: bool)
    ensures
        place_team_spec(g, ps, home).len() == g.len(),
        forall|i: int| 0 <= i < g.len() ==> (#[trigger] place_team_spec(g, ps, home)[i]).len()
            == g[i].len(),
    decreases ps.len(),
{
    if ps.len() == 0 {
    } else {
        lemma_place_team_shape(g, ps.drop_last(), home);
        let g1 = place_team_spec(g, ps.drop_last(), home);
        assert forall|i: int|
            0 <= i < g.len() implies (#[trigger] place_team_spec(g, ps, home)[i]).len()
            == g[i].len() by {
            assert(place_team_spec(g, ps, home)[i].len() == g1[i].len());
        }
    }
}

/// Width invariant: for any team-name pair that fits the grid, the
/// header and banner lines are exactly as wide as a grid row.
pub proof fn lemma_header_width(h: Seq<char>, a: Seq<char>)
    requires
        h.len() + a.len() <= 83,
    ensures
        header_top_spec(h, a).len() == 91,
        banner_spec(h, a).len() == 91,
{
}

/// Width invariant over the whole output: every line of the diagram is
/// exactly as wide as a grid row.
pub proof fn lemma_diagram_width(
    g0: Seq<Seq<char>>,
    hteam: Seq<char>,
    hp: Seq<PlayerView>,
    ateam: Seq<char>,
    ap: Seq<PlayerView>,
)
    requires
        g0.len() == 19,
        forall|i: int| 0 <= i < g0.len() ==> (#[trigger] g0[i]).len() == 91,
        hteam.len() + ateam.len() <= 83,
        forall|i: int|
            0 <= i < pair_count(hp, ap) ==> (#[trigger] hp[i]).name.len() + ap[i].name.len() <= 73,
    ensures
        forall|i: int|
            0 <= i < diagram_spec(g0, hteam, hp, ateam, ap).len() ==> (#[trigger] diagram_spec(
                g0,
                hteam,
                hp,
                ateam,
                ap,
            )[i]).len() == 91,
{
    lemma_header_width(hteam, ateam);
    lemma_place_team_shape(g0, hp, true);
    let g1 = place_team_spec(g0, hp, true);
    lemma_place_team_shape(g1, ap, false);
    let g = place_team_spec(g1, ap, false);
    let d = diagram_spec(g0, hteam, hp, ateam, ap);
    assert forall|i: int| 0 <= i < d.len() implies (#[trigger] d[i]).len() == 91 by {
        if i == 0 {
        } else if i == 1 {
        } else if i == 2 {
            assert(g[0].len() == 91);
        } else if i < 21 {
            assert(d[i] == g.skip(1)[i - 3]);
            assert(g.skip(1)[i - 3] == g[i - 2]);
            assert(g[i - 2].len() == 91);
        } else {
            let j = i - 21;
            assert(d[i] == roster_lines_spec(hp, ap)[j]);
            assert(roster_lines_spec(hp, ap)[j] == roster_line_spec(hp[j], ap[j]));
            assert(hp[j].name.len() + ap[j].name.len() <= 73);
        }
    }
}

/// Render the full diagram for two lineups on a pitch grid: place both
/// teams' shirt numbers, patch the header seam into the grid's top
/// border, and put the header, banner, grid rows and paired roster
/// listing in one sequence of printable lines. Pairing in the listing
/// stops at the shorter roster.
pub fn populate_stadium(home: &LineUp, away: &LineUp, stadium: PitchGrid) -> (lines: Vec<String>)
    requires
        home.wf(),
        away.wf(),
        stadium.wf(),
        home.team@.len() + away.team@.len() <= 83,
        forall|i: int|
            0 <= i < pair_count(home.players.deep_view(), away.players.deep_view()) ==> (
            #[trigger] home.players@[i])@.name.len() + away.players@[i]@.name.len() <= 73,
    ensures
        lines.deep_view() == diagram_spec(
            stadium@,
            home.team@,
            home.players.deep_view(),
            away.team@,
            away.players.deep_view(),
        ),
        lines@.len() == 21 + pair_count(home.players.deep_view(), away.players.deep_view()),
{
    let ghost g0 = stadium@;
    let ghost hd = home.players.deep_view();
    let ghost ad = away.players.deep_view();
    let mut grid = stadium;
    place_lineup(&mut grid, home, true);
    place_lineup(&mut grid, away, false);
    let ghost gp = grid@;
    proof {
        lemma_place_team_shape(g0, hd, true);
        lemma_place_team_shape(place_team_spec(g0, hd, true), ad, false);
        assert(gp.len() == 19);
        assert(forall|i: int| 0 <= i < 19 ==> (#[trigger] gp[i]).len() == 91);
    }
    let hl = home.team.as_str().unicode_len();
    let al = away.team.as_str().unicode_len();
    grid.set_clipped(0, 0, '├');
    grid.set_clipped(0, hl + 3, '┴');
    grid.set_clipped(0, 87 - al, '┴');
    grid.set_clipped(0, 90, '┤');
    let ghost gpat = grid@;
    proof {
        assert(gpat =~~= gp.update(0, seam_spec(gp[0], hl as int, al as int)));
    }
    let hdr = header_line(&home.team, &away.team);
    let ban = banner_line(&home.team, &away.team);
    let ghost pre: Seq<Seq<char>> = seq![
        header_top_spec(home.team@, away.team@),
        banner_spec(home.team@, away.team@),
    ];
    let mut lines: Vec<String> = Vec::new();
    lines.push(hdr);
    lines.push(ban);
    proof {
        assert(lines.deep_view() =~= pre + gpat.take(0));
    }
    let mut r: usize = 0;
    while r < 19
        invariant
            r <= 19,
            grid@ == gpat,
            gpat.len() == 19,
            lines.deep_view() == pre + gpat.take(r as int),
        decreases 19 - r,
    {
        let ghost before = lines.deep_view();
        let srow = row_string(&grid.rows[r]);
        lines.push(srow);
        proof {
            assert(srow@ == gpat[r as int]);
            assert(lines.deep_view() =~= before.push(gpat[r as int]));
            assert(before.push(gpat[r as int]) =~= pre + gpat.take(r + 1));
        }
        r = r + 1;
    }
    proof {
        assert(gpat.take(19) =~= gpat);
    }
    let hn = home.players.len();
    let an = away.players.len();
    let m: usize = if hn <= an {
        hn
    } else {
        an
    };
    proof {
        assert(m == pair_count(hd, ad));
        assert(roster_lines_spec(hd, ad).take(0) =~= Seq::<Seq<char>>::empty());
        assert(lines.deep_view() =~= pre + gpat + roster_lines_spec(hd, ad).take(0));
    }
    let mut i: usize = 0;
    while i < m
        invariant
            i <= m,
            m == pair_count(hd, ad),
            m <= home.players@.len(),
            m <= away.players@.len(),
            hd == home.players.deep_view(),
            ad == away.players.deep_view(),
            home.wf(),
            away.wf(),
            forall|k: int|
                0 <= k < pair_count(hd, ad) ==> (#[trigger] home.players@[k])@.name.len()
                    + away.players@[k]@.name.len() <= 73,
            lines.deep_view() == pre + gpat + roster_lines_spec(hd, ad).take(i as int),
        decreases m - i,
    {
        let ghost before = lines.deep_view();
        let line = roster_line(&home.players[i], &away.players[i]);
        lines.push(line);
        proof {
            let rl = roster_lines_spec(hd, ad);
            assert(line@ == rl[i as int]);
            assert(lines.deep_view() =~= before.push(rl[i as int]));
            assert(before.push(rl[i as int]) =~= pre + gpat + rl.take(i + 1));
        }
        i = i + 1;
    }
    proof {
        let rl = roster_lines_spec(hd, ad);
        assert(rl.take(m as int) =~= rl);
        let g = place_team_spec(place_team_spec(g0, hd, true), ad, false);
        assert(g == gp);
        assert(gpat =~= seq![seam_spec(gp[0], hl as int, al as int)] + gp.skip(1));
        assert(lines.deep_view() =~~= diagram_spec(g0, home.team@, hd, away.team@, ad));
    }
    lines
}

} // verus!
