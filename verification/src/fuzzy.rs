//! Gap-bounded fuzzy matching of a query against match records.
//!
//! A query matches a team name when the query's characters appear in the
//! name in order, with at most three other characters between consecutive
//! matched characters (and the first matched character anywhere). Both the
//! query and the names are compared after lower-casing.

use vstd::prelude::*;
use crate::record::Game;

verus! {

/// What `str::to_lowercase` returns for a given character sequence.
/// The full Unicode folding is not written out here; callers reason
/// through this name alone.
pub uninterp spec fn lower_of(s: Seq<char>) -> Seq<char>;

/// Relies on `str::to_lowercase`: the result depends on the characters
/// alone, and an empty string lower-cases to an empty string.
#[verifier::external_body]
fn to_lower(s: &str) -> (r: String)
    ensures
        r@ == lower_of(s@),
        s@.len() == 0 ==> r@.len() == 0,
{
    s.to_lowercase()
}

/// The characters of a string slice, as a vector.
fn str_chars(s: &str) -> (r: Vec<char>)
    ensures
        r@ == s@,
{
    let n: usize = s.unicode_len();
    let mut r: Vec<char> = Vec::new();
    let mut i: usize = 0;
    while i < n
        invariant
            n == s@.len(),
            i <= n,
            r@ == s@.take(i as int),
        decreases n - i,
    {
        r.push(s.get_char(i));
        i = i + 1;
        proof {
            assert(s@.take(i as int) =~= s@.take(i - 1).push(s@[i - 1]));
        }
    }
    proof {
        assert(s@.take(n as int) =~= s@);
    }
    r
}

/// The whole of `q` appears in `t`, in order, with the first character of
/// `q` at some position in `i..=i + 3` and every later character at most
/// three positions after its predecessor.
pub open spec fn gap_accepts_from(q: Seq<char>, t: Seq<char>, i: int) -> bool
    decreases q.len(),
{
    if q.len() == 0 {
        true
    } else {
        exists|j: int|
            i <= j <= i + 3 && 0 <= j < t.len() && t[j] == q[0] && gap_accepts_from(
                q.skip(1),
                t,
                j + 1,
            )
    }
}

/// The whole of `q` appears in `t` in order, starting anywhere, with at
/// most three other characters between consecutive matched characters.
pub open spec fn gap_accepts(q: Seq<char>, t: Seq<char>) -> bool {
    q.len() == 0 || exists|s: int|
        0 <= s < t.len() && t[s] == q[0] && gap_accepts_from(q.skip(1), t, s + 1)
}

/// A record matches when either lower-cased team name accepts the
/// lower-cased query; an empty query matches every record.
pub open spec fn game_matches(q: Seq<char>, g: Game) -> bool {
    q.len() == 0 || gap_accepts(lower_of(q), lower_of(g.home@)) || gap_accepts(
        lower_of(q),
        lower_of(g.away@),
    )
}

/// Search for the rest of the query, `q[qi..]`, with its first character
/// confined to positions `i..=i + 3` of `t`.
fn gap_match_from(q: &Vec<char>, t: &Vec<char>, qi: usize, i: usize) -> (r: bool)
    requires
        qi <= q@.len(),
        i <= t@.len(),
    ensures
        r == gap_accepts_from(q@.skip(qi as int), t@, i as int),
    decreases q@.len() - qi,
{
    if qi == q.len() {
        return true;
    }
    let mut j: usize = i;
    loop
        invariant
            qi < q@.len() <= usize::MAX,
            i <= j,
            j <= t@.len(),
            i <= t@.len(),
            forall|k: int|
                i <= k < j ==> !(t@[k] == q@[qi as int] && gap_accepts_from(
                    q@.skip(qi as int + 1),
                    t@,
                    k + 1,
                )),
        decreases t@.len() - j,
    {
        if j >= t.len() || j - i > 3 {
            proof {
                assert(q@.skip(qi as int).len() != 0);
                assert(q@.skip(qi as int)[0] == q@[qi as int]);
                assert(q@.skip(qi as int).skip(1) =~= q@.skip(qi as int + 1));
            }
            return false;
        }
        if t[j] == q[qi] && gap_match_from(q, t, qi + 1, j + 1) {
            proof {
                assert(q@.skip(qi as int)[0] == q@[qi as int]);
                assert(q@.skip(qi as int).skip(1) =~= q@.skip(qi as int + 1));
            }
            return true;
        }
        j = j + 1;
    }
}

/// Whether `q` appears in `t` as a gap-bounded subsequence.
fn gap_match(q: &Vec<char>, t: &Vec<char>) -> (r: bool)
    ensures
        r == gap_accepts(q@, t@),
{
    if q.len() == 0 {
        return true;
    }
    let mut s: usize = 0;
    while s < t.len()
        invariant
            q@.len() > 0,
            s <= t@.len(),
            forall|k: int|
                0 <= k < s ==> !(t@[k] == q@[0] && gap_accepts_from(q@.skip(1), t@, k + 1)),
        decreases t@.len() - s,
    {
        if t[s] == q[0] && gap_match_from(q, t, 1, s + 1) {
            return true;
        }
        s = s + 1;
    }
    false
}

/// Filter the records down to those whose home or away name loosely
/// contains the query: the query's characters in order, each at most
/// three characters after the one before, case-insensitively. The
/// records keep their original relative order; an empty query keeps
/// them all.
pub fn fuz(search_query: String, searched_games: Vec<Game>) -> (results: Vec<Game>)
    ensures
        results@ == searched_games@.filter(|g: Game| game_matches(search_query@, g)),
{
    let lowered = to_lower(search_query.as_str());
    let q = str_chars(lowered.as_str());
    let mut games = searched_games;
    let mut results: Vec<Game> = Vec::new();
    let ghost all: Seq<Game> = games@;
    let ghost mut i: int = 0;
    proof {
        assert(all.take(0).filter(|g: Game| game_matches(search_query@, g))
            =~= Seq::<Game>::empty());
        assert(games@ =~= all.skip(0));
    }
    while games.len() > 0
        invariant
            0 <= i <= all.len(),
            games@ == all.skip(i),
            q@ == lower_of(search_query@),
            search_query@.len() == 0 ==> q@.len() == 0,
            results@ == all.take(i).filter(|g: Game| game_matches(search_query@, g)),
        decreases games@.len(),
    {
        let game = games.remove(0);
        proof {
            assert(game == all[i]);
        }
        let home = to_lower(game.home.as_str());
        let away = to_lower(game.away.as_str());
        let h = str_chars(home.as_str());
        let a = str_chars(away.as_str());
        let keep = gap_match(&q, &h) || gap_match(&q, &a);
        proof {
            assert(keep == game_matches(search_query@, all[i]));
        }
        if keep {
            results.push(game);
        }
        proof {
            reveal(Seq::filter);
            assert(all.take(i + 1).drop_last() =~= all.take(i));
            assert(all.take(i + 1).last() == all[i]);
            assert(games@ =~= all.skip(i + 1));
            i = i + 1;
        }
    }
    proof {
        assert(all.take(all.len() as int) =~= all);
    }
    results
}

/// An empty query keeps every record, in order.
pub proof fn lemma_empty_query_keeps_all(q: Seq<char>, games: Seq<Game>)
    requires
        q.len() == 0,
    ensures
        games.filter(|g: Game| game_matches(q, g)) == games,
    decreases games.len(),
{
    reveal(Seq::filter);
    let pred = |g: Game| game_matches(q, g);
    if games.len() == 0 {
        assert(games.filter(pred) =~= games);
    } else {
        lemma_empty_query_keeps_all(q, games.drop_last());
        assert(pred(games.last()));
        assert(games.filter(pred) =~= games);
    }
}

} // verus!
