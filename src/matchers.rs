use crate::dates::{maybe_date_sep, no_sep_date, sep_date, valid_no_seperator, valid_sep_date, window};
use crate::dictionary::{Dictionary, Rank};
use crate::matching::{Match, MatchResult, Matcher};
use vstd::prelude::*;
use vstd::string::StrSliceExecFns;

verus! {

/// What `str::to_lowercase` makes of a string.
pub uninterp spec fn lower_of(s: Seq<char>) -> Seq<char>;

/// Relies on `str::to_lowercase`: the result depends on the characters alone,
/// and the empty string stays empty.
#[verifier::external_body]
fn lowercase(s: &str) -> (r: String)
    ensures
        r@ == lower_of(s@),
        s@.len() == 0 ==> r@.len() == 0,
{
    s.to_lowercase()
}

/// Dictionary matches that start at `start` and end before `end`, shortest
/// first; a word is at least two characters long.
pub open spec fn word_row(ranks: Map<Seq<char>, usize>, s: Seq<char>, start: int, end: int) -> Seq<
    Match,
>
    decreases end - start,
{
    if end <= start + 2 {
        Seq::empty()
    } else {
        let prev = word_row(ranks, s, start, end - 1);
        let word = s.subrange(start, end - 1);
        if ranks.contains_key(word) {
            prev.push(Match::spec_ranked(start, end - 1, Rank::Ranking(ranks[word])))
        } else {
            prev
        }
    }
}

/// Dictionary matches that start before `end`, by start, then by end.
pub open spec fn word_scan(ranks: Map<Seq<char>, usize>, s: Seq<char>, end: int) -> Seq<Match>
    decreases end,
{
    if end <= 0 {
        Seq::empty()
    } else {
        word_scan(ranks, s, end - 1) + word_row(ranks, s, end - 1, s.len() + 1 as int)
    }
}

/// Dictionary matches of the first `k` dictionaries, one dictionary after the
/// other.
pub open spec fn dict_scan(dicts: Seq<Map<Seq<char>, usize>>, s: Seq<char>, k: int) -> Seq<Match>
    decreases k,
{
    if k <= 0 {
        Seq::empty()
    } else {
        dict_scan(dicts, s, k - 1) + word_scan(dicts[k - 1], s, s.len() as int)
    }
}

/// Matches over windows at `start` whose length lies in `[lo, size)` and that
/// satisfy `p`, shortest first.
pub open spec fn window_row(
    s: Seq<char>,
    start: int,
    lo: int,
    size: int,
    p: spec_fn(Seq<char>) -> bool,
) -> Seq<Match>
    decreases size - lo,
{
    if size <= lo {
        Seq::empty()
    } else {
        let prev = window_row(s, start, lo, size - 1, p);
        let w = size - 1;
        if 0 <= start && start + w <= s.len() && p(s.subrange(start, start + w)) {
            prev.push(Match::spec_assemble(start, start + w))
        } else {
            prev
        }
    }
}

/// Matches over windows that start before `end`, with length in `[lo, hi]`,
/// and that satisfy `p`; by start, then by length.
pub open spec fn window_scan(
    s: Seq<char>,
    lo: int,
    hi: int,
    p: spec_fn(Seq<char>) -> bool,
    end: int,
) -> Seq<Match>
    decreases end,
{
    if end <= 0 {
        Seq::empty()
    } else {
        window_scan(s, lo, hi, p, end - 1) + window_row(s, end - 1, lo, hi + 1, p)
    }
}

pub open spec fn no_sep_window() -> spec_fn(Seq<char>) -> bool {
    |w: Seq<char>| no_sep_date(w)
}

pub open spec fn sep_window() -> spec_fn(Seq<char>) -> bool {
    |w: Seq<char>| sep_date(w)
}

/// Date matches in a password: unseparated dates over windows of four to
/// eight characters, then separated ones over windows of six to ten.
pub open spec fn date_matches(s: Seq<char>) -> Seq<Match> {
    window_scan(s, 4, 8, no_sep_window(), s.len() as int) + window_scan(
        s,
        6,
        10,
        sep_window(),
        s.len() as int,
    )
}

/// Once a window no longer fits, longer ones add nothing to a row.
proof fn lemma_row_stops(s: Seq<char>, start: int, lo: int, size: int, p: spec_fn(Seq<char>) -> bool)
    requires
        0 <= start,
        lo <= size,
        start + size > s.len(),
    ensures
        forall|t: int|
            size <= t ==> #[trigger] window_row(s, start, lo, t, p) == window_row(
                s,
                start,
                lo,
                size,
                p,
            ),
{
    assert forall|t: int| size <= t implies #[trigger] window_row(s, start, lo, t, p)
        == window_row(s, start, lo, size, p) by {
        lemma_row_stops_at(s, start, lo, size, t, p);
    }
}

proof fn lemma_row_stops_at(
    s: Seq<char>,
    start: int,
    lo: int,
    size: int,
    t: int,
    p: spec_fn(Seq<char>) -> bool,
)
    requires
        0 <= start,
        lo <= size <= t,
        start + size > s.len(),
    ensures
        window_row(s, start, lo, t, p) == window_row(s, start, lo, size, p),
    decreases t - size,
{
    if t > size {
        lemma_row_stops_at(s, start, lo, size, t - 1, p);
    }
}

/// The characters of a string.
fn chars_of(s: &str) -> (r: Vec<char>)
    ensures
        r@ == s@,
{
    let n = s.unicode_len();
    let mut r: Vec<char> = Vec::new();
    let mut k: usize = 0;
    while k < n
        invariant
            n == s@.len(),
            k <= n,
            r@ == s@.subrange(0, k as int),
        decreases n - k,
    {
        r.push(s.get_char(k));
        proof {
            assert(r@ =~= s@.subrange(0, k + 1));
        }
        k = k + 1;
    }
    assert(r@ =~= s@);
    r
}

/// Appends the matches of the windows of `pwd` with length in `[lo, hi]` that
/// read as separated dates (`sep`) or as unseparated ones.
fn scan_windows(pwd: &Vec<char>, lo: usize, hi: usize, sep: bool, matches: &mut Vec<Match>)
    requires
        1 <= lo <= hi <= 10,
    ensures
        final(matches)@ == old(matches)@ + window_scan(
            pwd@,
            lo as int,
            hi as int,
            if sep {
                sep_window()
            } else {
                no_sep_window()
            },
            pwd@.len() as int,
        ),
{
    let ghost p = if sep {
        sep_window()
    } else {
        no_sep_window()
    };
    let ghost base = matches@;
    let n = pwd.len();
    let mut start: usize = 0;
    while start < n
        invariant
            n == pwd@.len(),
            start <= n,
            1 <= lo <= hi <= 10,
            p == if sep {
                sep_window()
            } else {
                no_sep_window()
            },
            matches@ == base + window_scan(pwd@, lo as int, hi as int, p, start as int),
        decreases n - start,
    {
        let ghost before = matches@;
        let mut size: usize = lo;
        while size <= hi && size <= n - start
            invariant
                n == pwd@.len(),
                start < n,
                1 <= lo <= size <= hi + 1 <= 11,
                p == if sep {
                    sep_window()
                } else {
                    no_sep_window()
                },
                matches@ == before + window_row(pwd@, start as int, lo as int, size as int, p),
            decreases hi + 1 - size,
        {
            let w = window(pwd, start, start + size);
            let hit = if sep {
                valid_sep_date(&w)
            } else {
                valid_no_seperator(&w)
            };
            proof {
                let w = pwd@.subrange(start as int, start + size);
                if sep {
                    assert(p(w) == sep_date(w));
                } else {
                    assert(p(w) == no_sep_date(w));
                }
            }
            if hit {
                matches.push(Match::assemble(start, start + size));
            }
            proof {
                let prev = window_row(pwd@, start as int, lo as int, size as int, p);
                assert(window_row(pwd@, start as int, lo as int, size + 1, p) == if hit {
                    prev.push(Match::spec_assemble(start as int, start + size))
                } else {
                    prev
                });
                assert(matches@ =~= before + window_row(pwd@, start as int, lo as int, size + 1, p));
            }
            size = size + 1;
        }
        proof {
            if size <= hi {
                lemma_row_stops(pwd@, start as int, lo as int, size as int, p);
                assert(window_row(pwd@, start as int, lo as int, hi + 1, p) == window_row(
                    pwd@,
                    start as int,
                    lo as int,
                    size as int,
                    p,
                ));
            }
            assert(window_scan(pwd@, lo as int, hi as int, p, start + 1) == window_scan(
                pwd@,
                lo as int,
                hi as int,
                p,
                start as int,
            ) + window_row(pwd@, start as int, lo as int, hi + 1, p));
            assert(matches@ =~= base + window_scan(pwd@, lo as int, hi as int, p, start + 1));
        }
        start = start + 1;
    }
}

/// Reports every substring of at least two characters of the lowercased
/// password that one of its dictionaries knows. Positions count characters
/// of the lowercased password.
pub struct DictionaryMatcher<D: Dictionary> {
    dicts: Vec<D>,
}

/// Reports windows of a password that read as numeric dates, with or without
/// separators.
pub struct DateMatcher {}

impl<D: Dictionary> DictionaryMatcher<D> {
    pub fn new(dict: Vec<D>) -> (r: DictionaryMatcher<D>)
        ensures
            r.dicts() == dict@.map_values(|d: D| d.ranks()),
    {
        DictionaryMatcher { dicts: dict }
    }

    /// The rankings of the dictionaries, in order.
    pub closed spec fn dicts(&self) -> Seq<Map<Seq<char>, usize>> {
        self.dicts@.map_values(|d: D| d.ranks())
    }

    /// The matches in an already lowercased password: for each dictionary in
    /// turn, each known substring of at least two characters, by start and
    /// then by end, with its rank.
    pub fn match_lowercase(&self, lc: &str) -> (r: Vec<Match>)
        ensures
            r@ == dict_scan(self.dicts(), lc@, self.dicts().len() as int),
    {
        let n = lc.unicode_len();
        let mut matches: Vec<Match> = Vec::new();
        let mut d: usize = 0;
        while d < self.dicts.len()
            invariant
                n == lc@.len(),
                d <= self.dicts@.len(),
                matches@ == dict_scan(self.dicts(), lc@, d as int),
            decreases self.dicts@.len() - d,
        {
            let dict = &self.dicts[d];
            let ghost ranks = dict.ranks();
            assert(ranks == self.dicts()[d as int]);
            let ghost before = matches@;
            let mut i: usize = 0;
            while i < n
                invariant
                    n == lc@.len(),
                    d < self.dicts@.len(),
                    ranks == dict.ranks(),
                    i <= n,
                    matches@ == before + word_scan(ranks, lc@, i as int),
                decreases n - i,
            {
                let ghost row_start = matches@;
                let mut e: usize = i + 1;
                while e < n
                    invariant
                        n == lc@.len(),
                        ranks == dict.ranks(),
                        i < n,
                        i + 1 <= e <= n,
                        matches@ == row_start + word_row(ranks, lc@, i as int, e + 1),
                    decreases n - e,
                {
                    let j = e + 1;
                    let word = lc.substring_char(i, j);
                    if dict.contains(word) {
                        if let Rank::Ranking(rank) = dict.rank_of(word) {
                            matches.push(Match::ranked(i, j, Rank::Ranking(rank)));
                        }
                    }
                    proof {
                        assert(matches@ =~= row_start + word_row(ranks, lc@, i as int, j + 1));
                    }
                    e = j;
                }
                proof {
                    assert(matches@ =~= before + word_scan(ranks, lc@, i + 1));
                }
                i = i + 1;
            }
            proof {
                assert(matches@ =~= dict_scan(self.dicts(), lc@, d + 1));
            }
            d = d + 1;
        }
        matches
    }
}

impl<D: Dictionary> Matcher for DictionaryMatcher<D> {
    open spec fn name(&self) -> Seq<char> {
        "DictionaryMatcher"@
    }

    open spec fn matches_in(&self, pwd: Seq<char>) -> Seq<Match> {
        dict_scan(self.dicts(), lower_of(pwd), self.dicts().len() as int)
    }

    fn match_pwd(&self, pwd: &str) -> (r: MatchResult) {
        let pwd_lc = lowercase(pwd);
        let matches = self.match_lowercase(pwd_lc.as_str());
        proof {
            if pwd@.len() == 0 {
                crate::laws::law_short_password_no_words(*self, pwd@);
            }
        }
        MatchResult { matcher_name: "DictionaryMatcher".to_string(), matches }
    }
}

impl DateMatcher {
    pub fn new() -> (r: DateMatcher)
        ensures
            r.name() == "DateMatcher"@,
            forall|p: Seq<char>| #[trigger] r.matches_in(p) == date_matches(p),
    {
        DateMatcher {  }
    }

    /// Whether `s` has the shape of a separated date: three digit fields
    /// (one, two or four digits outside, one or two in the middle) joined
    /// twice by the same separator out of `. , ; - /`.
    pub fn is_sep_shape(s: &str) -> (r: bool)
        ensures
            r == crate::dates::sep_shape(s@),
    {
        maybe_date_sep(&chars_of(s))
    }

    /// Whether `s` reads as a date with separators.
    pub fn is_sep_date(s: &str) -> (r: bool)
        ensures
            r == sep_date(s@),
    {
        valid_sep_date(&chars_of(s))
    }

    /// Whether `s` reads as a date without separators.
    pub fn is_no_sep_date(s: &str) -> (r: bool)
        ensures
            r == no_sep_date(s@),
    {
        valid_no_seperator(&chars_of(s))
    }
}

impl Matcher for DateMatcher {
    open spec fn name(&self) -> Seq<char> {
        "DateMatcher"@
    }

    open spec fn matches_in(&self, pwd: Seq<char>) -> Seq<Match> {
        date_matches(pwd)
    }

    fn match_pwd(&self, pwd: &str) -> (r: MatchResult) {
        let chars = chars_of(pwd);
        let mut matches: Vec<Match> = Vec::new();
        scan_windows(&chars, 4, 8, false, &mut matches);
        scan_windows(&chars, 6, 10, true, &mut matches);
        proof {
            if pwd@.len() == 0 {
                crate::laws::law_short_password_no_dates(*self, pwd@);
            }
        }
        MatchResult { matcher_name: "DateMatcher".to_string(), matches }
    }
}

} // verus!
