use crate::dates::{no_sep_date, sep_date};
use crate::dictionary::{Dictionary, Rank};
use crate::matchers::{
    date_matches, dict_scan, lower_of, no_sep_window, sep_window, window_row, window_scan,
    word_row, word_scan, DateMatcher, DictionaryMatcher,
};
use crate::dictionary::{lines_of, rank_map};
use crate::matching::{is_default_set, Match, MatchResult, Matcher, MatcherKind};
use vstd::prelude::*;

verus! {

/// `m` is a match of a word of `ranks` in `s`, with the word's rank.
pub open spec fn word_hit(ranks: Map<Seq<char>, usize>, s: Seq<char>, m: Match) -> bool {
    let (i, j) = (m.idx_match_start as int, m.idx_match_end as int);
    &&& i + 2 <= j <= s.len()
    &&& ranks.contains_key(s.subrange(i, j))
    &&& m.rank == Rank::Ranking(ranks[s.subrange(i, j)])
    &&& m.match_len == j - i
}

/// `m` is a match of a window of `s`, of length `lo` to `hi`, that `p` accepts.
pub open spec fn window_hit(
    s: Seq<char>,
    lo: int,
    hi: int,
    p: spec_fn(Seq<char>) -> bool,
    m: Match,
) -> bool {
    let (i, j) = (m.idx_match_start as int, m.idx_match_end as int);
    &&& i + lo <= j <= i + hi
    &&& j <= s.len()
    &&& p(s.subrange(i, j))
    &&& m.rank == Rank::NoRank
    &&& m.match_len == j - i
}

proof fn lemma_word_row_hits(ranks: Map<Seq<char>, usize>, s: Seq<char>, i: int, e: int)
    requires
        0 <= i,
        e <= s.len() + 1,
        s.len() <= usize::MAX,
    ensures
        forall|k: int|
            0 <= k < word_row(ranks, s, i, e).len() ==> {
                let m = #[trigger] word_row(ranks, s, i, e)[k];
                m.idx_match_start == i && word_hit(ranks, s, m)
            },
    decreases e - i,
{
    if e > i + 2 {
        lemma_word_row_hits(ranks, s, i, e - 1);
    }
}

proof fn lemma_word_scan_hits(ranks: Map<Seq<char>, usize>, s: Seq<char>, end: int)
    requires
        end <= s.len(),
        s.len() <= usize::MAX,
    ensures
        forall|k: int|
            0 <= k < word_scan(ranks, s, end).len() ==> word_hit(
                ranks,
                s,
                #[trigger] word_scan(ranks, s, end)[k],
            ),
    decreases end,
{
    if end > 0 {
        lemma_word_scan_hits(ranks, s, end - 1);
        lemma_word_row_hits(ranks, s, end - 1, s.len() + 1 as int);
        let a = word_scan(ranks, s, end - 1);
        let b = word_row(ranks, s, end - 1, s.len() + 1 as int);
        assert forall|k: int| 0 <= k < word_scan(ranks, s, end).len() implies word_hit(
            ranks,
            s,
            #[trigger] word_scan(ranks, s, end)[k],
        ) by {
            if k >= a.len() {
                assert(word_scan(ranks, s, end)[k] == b[k - a.len()]);
            }
        }
    }
}

proof fn lemma_dict_scan_hits(dicts: Seq<Map<Seq<char>, usize>>, s: Seq<char>, n: int)
    requires
        n <= dicts.len(),
        s.len() <= usize::MAX,
    ensures
        forall|k: int|
            0 <= k < dict_scan(dicts, s, n).len() ==> exists|d: int|
                0 <= d < n && word_hit(dicts[d], s, #[trigger] dict_scan(dicts, s, n)[k]),
    decreases n,
{
    if n > 0 {
        lemma_dict_scan_hits(dicts, s, n - 1);
        lemma_word_scan_hits(dicts[n - 1], s, s.len() as int);
        let a = dict_scan(dicts, s, n - 1);
        let b = word_scan(dicts[n - 1], s, s.len() as int);
        assert forall|k: int| 0 <= k < dict_scan(dicts, s, n).len() implies exists|d: int|
            0 <= d < n && word_hit(dicts[d], s, #[trigger] dict_scan(dicts, s, n)[k]) by {
            if k < a.len() {
                assert(dict_scan(dicts, s, n)[k] == a[k]);
                let d = choose|d: int| 0 <= d < n - 1 && word_hit(dicts[d], s, a[k]);
                assert(word_hit(dicts[d], s, dict_scan(dicts, s, n)[k]));
            } else {
                assert(dict_scan(dicts, s, n)[k] == b[k - a.len()]);
                assert(word_hit(dicts[n - 1], s, dict_scan(dicts, s, n)[k]));
            }
        }
    }
}

proof fn lemma_window_row_hits(
    s: Seq<char>,
    i: int,
    lo: int,
    size: int,
    p: spec_fn(Seq<char>) -> bool,
)
    requires
        0 <= i,
        0 <= lo,
        s.len() <= usize::MAX,
    ensures
        forall|k: int|
            0 <= k < window_row(s, i, lo, size, p).len() ==> {
                let m = #[trigger] window_row(s, i, lo, size, p)[k];
                m.idx_match_start == i && window_hit(s, lo, size - 1, p, m)
            },
    decreases size - lo,
{
    if size > lo {
        lemma_window_row_hits(s, i, lo, size - 1, p);
        let prev = window_row(s, i, lo, size - 1, p);
        assert forall|k: int| 0 <= k < window_row(s, i, lo, size, p).len() implies {
            let m = #[trigger] window_row(s, i, lo, size, p)[k];
            m.idx_match_start == i && window_hit(s, lo, size - 1, p, m)
        } by {
            if k < prev.len() {
                assert(window_row(s, i, lo, size, p)[k] == prev[k]);
            }
        }
    }
}

proof fn lemma_window_scan_hits(
    s: Seq<char>,
    lo: int,
    hi: int,
    p: spec_fn(Seq<char>) -> bool,
    end: int,
)
    requires
        0 <= lo,
        s.len() <= usize::MAX,
    ensures
        forall|k: int|
            0 <= k < window_scan(s, lo, hi, p, end).len() ==> window_hit(
                s,
                lo,
                hi,
                p,
                #[trigger] window_scan(s, lo, hi, p, end)[k],
            ),
    decreases end,
{
    if end > 0 {
        lemma_window_scan_hits(s, lo, hi, p, end - 1);
        lemma_window_row_hits(s, end - 1, lo, hi + 1, p);
        let a = window_scan(s, lo, hi, p, end - 1);
        let b = window_row(s, end - 1, lo, hi + 1, p);
        assert forall|k: int| 0 <= k < window_scan(s, lo, hi, p, end).len() implies window_hit(
            s,
            lo,
            hi,
            p,
            #[trigger] window_scan(s, lo, hi, p, end)[k],
        ) by {
            if k >= a.len() {
                assert(window_scan(s, lo, hi, p, end)[k] == b[k - a.len()]);
            }
        }
    }
}

/// Every match that a dictionary matcher reports is a word of one of its
/// dictionaries, found in the lowercased password, with that word's rank.
pub proof fn law_dictionary_matches_are_words<D: Dictionary>(m: DictionaryMatcher<D>, pwd: Seq<char>, k: int)
    requires
        lower_of(pwd).len() <= usize::MAX,
        0 <= k < m.matches_in(pwd).len(),
    ensures
        exists|d: int|
            0 <= d < m.dicts().len() && word_hit(m.dicts()[d], lower_of(pwd), m.matches_in(pwd)[k]),
{
    lemma_dict_scan_hits(m.dicts(), lower_of(pwd), m.dicts().len() as int);
    assert(m.matches_in(pwd)[k] == dict_scan(
        m.dicts(),
        lower_of(pwd),
        m.dicts().len() as int,
    )[k]);
}

/// Every match that the date matcher reports is a window of four to eight
/// characters that reads as an unseparated date, or one of six to ten that
/// reads as a separated date.
pub proof fn law_date_matches_are_dates(m: DateMatcher, pwd: Seq<char>, k: int)
    requires
        pwd.len() <= usize::MAX,
        0 <= k < m.matches_in(pwd).len(),
    ensures
        ({
            let x = m.matches_in(pwd)[k];
            let w = pwd.subrange(x.idx_match_start as int, x.idx_match_end as int);
            window_hit(pwd, 4, 8, no_sep_window(), x) && no_sep_date(w) || window_hit(
                pwd,
                6,
                10,
                sep_window(),
                x,
            ) && sep_date(w)
        }),
{
    let s = pwd;
    let a = window_scan(s, 4, 8, no_sep_window(), s.len() as int);
    let b = window_scan(s, 6, 10, sep_window(), s.len() as int);
    lemma_window_scan_hits(s, 4, 8, no_sep_window(), s.len() as int);
    lemma_window_scan_hits(s, 6, 10, sep_window(), s.len() as int);
    let x = m.matches_in(pwd)[k];
    let w = pwd.subrange(x.idx_match_start as int, x.idx_match_end as int);
    if k < a.len() {
        assert(x == a[k]);
        assert(no_sep_window()(w));
    } else {
        assert(x == b[k - a.len()]);
        assert(sep_window()(w));
    }
}

/// Every match of every matcher is a non-empty span whose length is its
/// width.
pub proof fn law_matches_well_formed(m: MatcherKind, pwd: Seq<char>, k: int)
    requires
        pwd.len() <= usize::MAX,
        lower_of(pwd).len() <= usize::MAX,
        0 <= k < m.matches_in(pwd).len(),
    ensures
        m.matches_in(pwd)[k].wf(),
{
    match m {
        MatcherKind::Dictionary(d) => {
            law_dictionary_matches_are_words(d, pwd, k);
        },
        MatcherKind::Date(d) => {
            law_date_matches_are_dates(d, pwd, k);
        },
    }
}

/// A password shorter than four characters holds no date.
pub proof fn law_short_password_no_dates(m: DateMatcher, pwd: Seq<char>)
    requires
        pwd.len() < 4,
    ensures
        m.matches_in(pwd).len() == 0,
{
    if m.matches_in(pwd).len() > 0 {
        law_date_matches_are_dates(m, pwd, 0);
    }
}

/// A password whose lowercase form is shorter than two characters holds no
/// dictionary word.
pub proof fn law_short_password_no_words<D: Dictionary>(m: DictionaryMatcher<D>, pwd: Seq<char>)
    requires
        lower_of(pwd).len() < 2,
    ensures
        m.matches_in(pwd).len() == 0,
{
    if m.matches_in(pwd).len() > 0 {
        law_dictionary_matches_are_words(m, pwd, 0);
    }
}

proof fn lemma_word_row_finds(ranks: Map<Seq<char>, usize>, s: Seq<char>, i: int, j: int, e: int) -> (k: int)
    requires
        0 <= i,
        i + 2 <= j < e,
        ranks.contains_key(s.subrange(i, j)),
    ensures
        0 <= k < word_row(ranks, s, i, e).len(),
        word_row(ranks, s, i, e)[k] == Match::spec_ranked(
            i,
            j,
            Rank::Ranking(ranks[s.subrange(i, j)]),
        ),
    decreases e - i,
{
    if e - 1 == j {
        word_row(ranks, s, i, j).len() as int
    } else {
        lemma_word_row_finds(ranks, s, i, j, e - 1)
    }
}

proof fn lemma_word_scan_finds(ranks: Map<Seq<char>, usize>, s: Seq<char>, i: int, j: int, end: int) -> (k: int)
    requires
        0 <= i < end,
        i + 2 <= j <= s.len(),
        ranks.contains_key(s.subrange(i, j)),
    ensures
        0 <= k < word_scan(ranks, s, end).len(),
        word_scan(ranks, s, end)[k] == Match::spec_ranked(
            i,
            j,
            Rank::Ranking(ranks[s.subrange(i, j)]),
        ),
    decreases end,
{
    let a = word_scan(ranks, s, end - 1);
    if end - 1 == i {
        let k = lemma_word_row_finds(ranks, s, i, j, s.len() + 1 as int);
        a.len() + k
    } else {
        lemma_word_scan_finds(ranks, s, i, j, end - 1)
    }
}

proof fn lemma_dict_scan_finds(
    dicts: Seq<Map<Seq<char>, usize>>,
    s: Seq<char>,
    d: int,
    i: int,
    j: int,
    n: int,
) -> (k: int)
    requires
        0 <= d < n <= dicts.len(),
        0 <= i,
        i + 2 <= j <= s.len(),
        dicts[d].contains_key(s.subrange(i, j)),
    ensures
        0 <= k < dict_scan(dicts, s, n).len(),
        dict_scan(dicts, s, n)[k] == Match::spec_ranked(
            i,
            j,
            Rank::Ranking(dicts[d][s.subrange(i, j)]),
        ),
    decreases n,
{
    let a = dict_scan(dicts, s, n - 1);
    if d == n - 1 {
        let k = lemma_word_scan_finds(dicts[d], s, i, j, s.len() as int);
        a.len() + k
    } else {
        lemma_dict_scan_finds(dicts, s, d, i, j, n - 1)
    }
}

/// Every substring of at least two characters of the lowercased password
/// that one of the dictionaries knows is reported, with exactly its span and
/// the word's rank.
pub proof fn law_dictionary_finds_every_word<D: Dictionary>(
    m: DictionaryMatcher<D>,
    pwd: Seq<char>,
    d: int,
    i: int,
    j: int,
)
    requires
        0 <= d < m.dicts().len(),
        0 <= i,
        i + 2 <= j <= lower_of(pwd).len(),
        m.dicts()[d].contains_key(lower_of(pwd).subrange(i, j)),
    ensures
        exists|k: int|
            0 <= k < m.matches_in(pwd).len() && #[trigger] m.matches_in(pwd)[k]
                == Match::spec_ranked(
                i,
                j,
                Rank::Ranking(m.dicts()[d][lower_of(pwd).subrange(i, j)]),
            ),
{
    let k = lemma_dict_scan_finds(m.dicts(), lower_of(pwd), d, i, j, m.dicts().len() as int);
    assert(m.matches_in(pwd)[k] == dict_scan(m.dicts(), lower_of(pwd), m.dicts().len() as int)[k]);
}

/// Two results of one matcher on one password hold the same matches, in the
/// same order.
pub proof fn law_matching_is_repeatable(
    m: MatcherKind,
    pwd: Seq<char>,
    first: MatchResult,
    second: MatchResult,
)
    requires
        first.matcher_name@ == m.name(),
        first.matches@ == m.matches_in(pwd),
        second.matcher_name@ == m.name(),
        second.matches@ == m.matches_in(pwd),
    ensures
        first.matcher_name@ == second.matcher_name@,
        first.matches@ == second.matches@,
        first.matches@.to_set() == second.matches@.to_set(),
{
}

/// With the default matchers for a surname list, there is one result per
/// matcher, and the first one, the dictionary matcher's, reports every
/// substring of at least two characters of the lowercased password that the
/// list holds, with its span and its rank in the list.
pub proof fn law_default_set_reports_surnames(
    ms: Seq<MatcherKind>,
    surnames: Seq<char>,
    pwd: Seq<char>,
    i: int,
    j: int,
)
    requires
        is_default_set(ms, surnames),
        0 <= i,
        i + 2 <= j <= lower_of(pwd).len(),
        rank_map(lines_of(surnames)).contains_key(lower_of(pwd).subrange(i, j)),
    ensures
        ms.len() == 2,
        ms[0].name() == "DictionaryMatcher"@,
        ms[1].name() == "DateMatcher"@,
        exists|k: int|
            0 <= k < ms[0].matches_in(pwd).len() && #[trigger] ms[0].matches_in(pwd)[k]
                == Match::spec_ranked(
                i,
                j,
                Rank::Ranking(rank_map(lines_of(surnames))[lower_of(pwd).subrange(i, j)]),
            ),
{
    match ms[0] {
        MatcherKind::Dictionary(d) => {
            assert(d.dicts()[0] == rank_map(lines_of(surnames)));
            assert(ms[0].matches_in(pwd) == d.matches_in(pwd));
            law_dictionary_finds_every_word(d, pwd, 0, i, j);
            let k = choose|k: int|
                0 <= k < d.matches_in(pwd).len() && #[trigger] d.matches_in(pwd)[k]
                    == Match::spec_ranked(
                    i,
                    j,
                    Rank::Ranking(d.dicts()[0][lower_of(pwd).subrange(i, j)]),
                );
            assert(ms[0].matches_in(pwd)[k] == d.matches_in(pwd)[k]);
        },
        MatcherKind::Date(_) => {},
    }
}

proof fn lemma_window_row_finds(
    s: Seq<char>,
    i: int,
    lo: int,
    w: int,
    size: int,
    p: spec_fn(Seq<char>) -> bool,
) -> (k: int)
    requires
        0 <= i,
        lo <= w < size,
        i + w <= s.len(),
        p(s.subrange(i, i + w)),
    ensures
        0 <= k < window_row(s, i, lo, size, p).len(),
        window_row(s, i, lo, size, p)[k] == Match::spec_assemble(i, i + w),
    decreases size - lo,
{
    if size - 1 == w {
        window_row(s, i, lo, w, p).len() as int
    } else {
        lemma_window_row_finds(s, i, lo, w, size - 1, p)
    }
}

proof fn lemma_window_scan_finds(
    s: Seq<char>,
    lo: int,
    hi: int,
    p: spec_fn(Seq<char>) -> bool,
    i: int,
    w: int,
    end: int,
) -> (k: int)
    requires
        0 <= i < end,
        lo <= w <= hi,
        i + w <= s.len(),
        p(s.subrange(i, i + w)),
    ensures
        0 <= k < window_scan(s, lo, hi, p, end).len(),
        window_scan(s, lo, hi, p, end)[k] == Match::spec_assemble(i, i + w),
    decreases end,
{
    let a = window_scan(s, lo, hi, p, end - 1);
    if end - 1 == i {
        let k = lemma_window_row_finds(s, i, lo, w, hi + 1, p);
        a.len() + k
    } else {
        lemma_window_scan_finds(s, lo, hi, p, i, w, end - 1)
    }
}

/// Every window of four to eight characters that reads as an unseparated
/// date, and every one of six to ten that reads as a separated date, is
/// reported with exactly its span.
pub proof fn law_date_matcher_finds_every_date(m: DateMatcher, pwd: Seq<char>, i: int, j: int)
    requires
        0 <= i < j <= pwd.len(),
        (4 <= j - i <= 8 && no_sep_date(pwd.subrange(i, j))) || (6 <= j - i <= 10 && sep_date(
            pwd.subrange(i, j),
        )),
    ensures
        exists|k: int|
            0 <= k < m.matches_in(pwd).len() && #[trigger] m.matches_in(pwd)[k]
                == Match::spec_assemble(i, j),
{
    let s = pwd;
    let a = window_scan(s, 4, 8, no_sep_window(), s.len() as int);
    let b = window_scan(s, 6, 10, sep_window(), s.len() as int);
    assert(m.matches_in(pwd) == a + b);
    if 4 <= j - i <= 8 && no_sep_date(pwd.subrange(i, j)) {
        assert(no_sep_window()(s.subrange(i, i + (j - i))));
        let k = lemma_window_scan_finds(s, 4, 8, no_sep_window(), i, j - i, s.len() as int);
        assert(m.matches_in(pwd)[k] == a[k]);
    } else {
        assert(sep_window()(s.subrange(i, i + (j - i))));
        let k = lemma_window_scan_finds(s, 6, 10, sep_window(), i, j - i, s.len() as int);
        assert(m.matches_in(pwd)[a.len() + k] == b[k]);
    }
}

} // verus!
