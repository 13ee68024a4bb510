//! Match records as the scraping collaborator hands them over.

use vstd::prelude::*;
use vstd::string::StringExecFns;

verus! {

/// Progress of a match: not yet started, in play, or finished.
#[derive(Clone, Copy, Debug, PartialEq, Eq, Structural)]
pub enum Status {
    Upcoming,
    Live,
    Over,
}

/// One scheduled or played match: the two team names, the score,
/// the kickoff time as Unix seconds, the match status, and the
/// relative link to the match's detail page.
#[derive(Debug, PartialEq)]
pub struct Game {
    pub home: String,
    pub away: String,
    pub score_home: usize,
    pub score_away: usize,
    pub timestamp: i64,
    pub status: Status,
    pub link: String,
}

/// The status the source reports, mapped onto [`Status`]: the page says
/// `Beendet` for a finished match and `Live` for one in play; anything
/// else stands for a match not yet started.
pub open spec fn spec_status(s: Seq<char>) -> Status {
    if s == "Beendet"@ {
        Status::Over
    } else if s == "Live"@ {
        Status::Live
    } else {
        Status::Upcoming
    }
}

/// Classify the status text of the source page.
pub fn status_of(s: &String) -> (st: Status)
    ensures
        st == spec_status(s@),
{
    if *s == "Beendet".to_owned() {
        Status::Over
    } else if *s == "Live".to_owned() {
        Status::Live
    } else {
        Status::Upcoming
    }
}

/// The index of the last `/` in `s`, or `-1` when there is none.
pub open spec fn last_slash(s: Seq<char>) -> int
    decreases s.len(),
{
    if s.len() == 0 {
        -1
    } else if s.last() == '/' {
        s.len() - 1
    } else {
        last_slash(s.drop_last())
    }
}

/// A position holding a `/` with none after it is the last slash.
proof fn lemma_last_slash_at(s: Seq<char>, k: int)
    requires
        0 <= k < s.len(),
        s[k] == '/',
        forall|m: int| k < m < s.len() ==> s[m] != '/',
    ensures
        last_slash(s) == k,
    decreases s.len(),
{
    if k == s.len() - 1 {
    } else {
        assert(s.last() != '/');
        assert forall|m: int| k < m < s.drop_last().len() implies s.drop_last()[m] != '/' by {
            assert(s.drop_last()[m] == s[m]);
        }
        lemma_last_slash_at(s.drop_last(), k);
    }
}

/// The index of the last `/` in the string.
fn find_last_slash(s: &str) -> (idx: usize)
    requires
        s@.contains('/'),
    ensures
        idx < s@.len(),
        s@[idx as int] == '/',
        forall|m: int| idx < m < s@.len() ==> s@[m] != '/',
{
    let n: usize = s.unicode_len();
    let mut i: usize = n;
    while i > 0
        invariant
            i <= n,
            n == s@.len(),
            forall|m: int| i <= m < n ==> s@[m] != '/',
        decreases i,
    {
        if s.get_char(i - 1) == '/' {
            return i - 1;
        }
        i = i - 1;
    }
    proof {
        let k = choose|k: int| 0 <= k < s@.len() && s@[k] == '/';
        assert(false);
    }
    0
}

/// Derive a detail-page address from a match link: keep everything up to
/// the link's last path segment, put the base in front and the extra
/// segment behind.
pub fn construct_url(base: &str, link: String, segment: &str) -> (r: String)
    requires
        link@.contains('/'),
    ensures
        r@ == base@ + link@.take(last_slash(link@)) + segment@,
{
    let idx: usize = find_last_slash(link.as_str());
    let prefix = link.as_str().substring_char(0, idx);
    let mut r = String::new();
    r.append(base);
    r.append(prefix);
    r.append(segment);
    proof {
        lemma_last_slash_at(link@, idx as int);
        assert(r@ =~= base@ + link@.take(last_slash(link@)) + segment@);
    }
    r
}

} // verus!
