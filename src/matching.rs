use crate::dictionary::{default_dict_lib, lines_of, rank_map, Dictionary, Rank, RankedSurnames};
use crate::matchers::{DateMatcher, DictionaryMatcher};
use vstd::prelude::*;

verus! {

/// A half-open span `[idx_match_start, idx_match_end)` of character positions
/// in a password, recognised by a matcher. Date matches count characters of
/// the password itself; dictionary matches count characters of its lowercase
/// form, which is longer where lowercasing expands a character (`'İ'`
/// becomes two).
#[derive(Clone, Copy, Debug)]
pub struct Match {
    pub idx_match_start: usize,
    pub idx_match_end: usize,
    pub match_len: usize,
    /// Rank of the matched word, where a dictionary gave one.
    pub rank: Rank,
}

impl Match {
    /// A span is well formed when it is not empty and its length is its width.
    pub open spec fn wf(&self) -> bool {
        self.idx_match_start < self.idx_match_end && self.match_len == self.idx_match_end
            - self.idx_match_start
    }

    /// A match over `[start, end)`, with the rank it carries.
    pub open spec fn spec_ranked(start: int, end: int, rank: Rank) -> Match {
        Match {
            idx_match_start: start as usize,
            idx_match_end: end as usize,
            match_len: (end - start) as usize,
            rank,
        }
    }

    /// A match over `[start, end)` that carries no rank.
    pub open spec fn spec_assemble(start: int, end: int) -> Match {
        Match::spec_ranked(start, end, Rank::NoRank)
    }

    pub fn assemble(idx_match_start: usize, idx_match_end: usize) -> (r: Match)
        requires
            idx_match_start < idx_match_end,
        ensures
            r == Match::spec_assemble(idx_match_start as int, idx_match_end as int),
    {
        Match::ranked(idx_match_start, idx_match_end, Rank::NoRank)
    }

    pub fn ranked(idx_match_start: usize, idx_match_end: usize, rank: Rank) -> (r: Match)
        requires
            idx_match_start < idx_match_end,
        ensures
            r == Match::spec_ranked(idx_match_start as int, idx_match_end as int, rank),
    {
        Match {
            idx_match_start,
            idx_match_end,
            match_len: idx_match_end - idx_match_start,
            rank,
        }
    }
}

/// The matches that one matcher found in one password.
#[derive(Debug)]
pub struct MatchResult {
    pub matcher_name: String,
    pub matches: Vec<Match>,
}

/// A password pattern detector.
pub trait Matcher {
    /// Name under which the matcher reports its results.
    spec fn name(&self) -> Seq<char>;

    /// The matches the matcher reports for a password.
    spec fn matches_in(&self, pwd: Seq<char>) -> Seq<Match>;

    fn match_pwd(&self, pwd: &str) -> (r: MatchResult)
        ensures
            r.matcher_name@ == self.name(),
            r.matches@ == self.matches_in(pwd@),
            pwd@.len() == 0 ==> r.matches@.len() == 0,
    ;
}

/// The matchers that an [`Omnimatch`] can run.
pub enum MatcherKind {
    Dictionary(DictionaryMatcher<RankedSurnames>),
    Date(DateMatcher),
}

impl Matcher for MatcherKind {
    open spec fn name(&self) -> Seq<char> {
        match self {
            MatcherKind::Dictionary(m) => m.name(),
            MatcherKind::Date(m) => m.name(),
        }
    }

    open spec fn matches_in(&self, pwd: Seq<char>) -> Seq<Match> {
        match self {
            MatcherKind::Dictionary(m) => m.matches_in(pwd),
            MatcherKind::Date(m) => m.matches_in(pwd),
        }
    }

    fn match_pwd(&self, pwd: &str) -> (r: MatchResult) {
        match self {
            MatcherKind::Dictionary(m) => m.match_pwd(pwd),
            MatcherKind::Date(m) => m.match_pwd(pwd),
        }
    }
}

/// The default matchers for a surname list: a dictionary matcher over that
/// list, then a date matcher.
pub open spec fn is_default_set(ms: Seq<MatcherKind>, surnames: Seq<char>) -> bool {
    &&& ms.len() == 2
    &&& ms[0] matches MatcherKind::Dictionary(d) && d.dicts() == seq![rank_map(lines_of(surnames))]
    &&& ms[1] is Date
}

/// Runs a list of matchers over one password.
pub struct Omnimatch {
    pwd: String,
    matchers: Vec<MatcherKind>,
}

impl Omnimatch {
    pub closed spec fn password(&self) -> Seq<char> {
        self.pwd@
    }

    pub closed spec fn matchers(&self) -> Seq<MatcherKind> {
        self.matchers@
    }

    /// An orchestrator for `password` with the default matchers, whose
    /// dictionary is the newline-delimited surname list `surnames`.
    pub fn new(password: &str, surnames: &str) -> (r: Omnimatch)
        ensures
            r.password() == password@,
            is_default_set(r.matchers(), surnames@),
    {
        let mut omni = Omnimatch { pwd: password.to_string(), matchers: Vec::new() };
        let default_matchers = Omnimatch::get_default(surnames);
        omni.set_matchers(default_matchers);
        omni
    }

    fn get_default(surnames: &str) -> (r: Vec<MatcherKind>)
        ensures
            is_default_set(r@, surnames@),
    {
        let dicts = default_dict_lib(surnames);
        let dict_matcher = DictionaryMatcher::new(dicts);
        let date_matcher = DateMatcher::new();
        let mut matchers: Vec<MatcherKind> = Vec::new();
        matchers.push(MatcherKind::Dictionary(dict_matcher));
        matchers.push(MatcherKind::Date(date_matcher));
        proof {
            assert(dicts@.map_values(|d: RankedSurnames| d.ranks()) =~= seq![
                rank_map(lines_of(surnames@)),
            ]);
        }
        matchers
    }

    pub fn set_matchers(&mut self, matchers: Vec<MatcherKind>)
        ensures
            final(self).password() == old(self).password(),
            final(self).matchers() == matchers@,
    {
        self.matchers = matchers;
    }

    /// Runs every matcher over the password, in order, and returns their
    /// results in the same order.
    pub fn execute(&mut self) -> (r: Vec<Box<MatchResult>>)
        ensures
            final(self).password() == old(self).password(),
            final(self).matchers() == old(self).matchers(),
            r@.len() == old(self).matchers().len(),
            forall|k: int|
                0 <= k < r@.len() ==> {
                    &&& (#[trigger] r@[k]).matcher_name@ == old(self).matchers()[k].name()
                    &&& r@[k].matches@ == old(self).matchers()[k].matches_in(old(self).password())
                },
    {
        let mut match_results: Vec<Box<MatchResult>> = Vec::new();
        let mut k: usize = 0;
        while k < self.matchers.len()
            invariant
                k <= self.matchers@.len(),
                match_results@.len() == k,
                forall|x: int|
                    0 <= x < k ==> {
                        &&& (#[trigger] match_results@[x]).matcher_name@ == self.matchers@[x].name()
                        &&& match_results@[x].matches@ == self.matchers@[x].matches_in(self.pwd@)
                    },
            decreases self.matchers@.len() - k,
        {
            let result = self.matchers[k].match_pwd(self.pwd.as_str());
            match_results.push(Box::new(result));
            k = k + 1;
        }
        match_results
    }
}

} // verus!
