use vstd::hash_map::StringHashMap;
use vstd::prelude::*;

verus! {

/// Position of a word in its source ranking, or its absence.
#[derive(Clone, Copy, Debug, PartialEq, Eq, Structural)]
pub enum Rank {
    Ranking(usize),
    NoRank,
}

/// The rank that a ranking map gives to a word.
pub open spec fn rank_in(ranks: Map<Seq<char>, usize>, word: Seq<char>) -> Rank {
    if ranks.contains_key(word) {
        Rank::Ranking(ranks[word])
    } else {
        Rank::NoRank
    }
}

/// Read-only lookup of known words and their ranks.
pub trait Dictionary {
    /// Every known word, with its rank.
    spec fn ranks(&self) -> Map<Seq<char>, usize>;

    /// Stable identifier of the dictionary.
    spec fn name(&self) -> Seq<char>;

    fn get_name(&self) -> (r: &str)
        ensures
            r@ == self.name(),
    ;

    fn contains(&self, word: &str) -> (r: bool)
        ensures
            r == self.ranks().contains_key(word@),
    ;

    fn rank_of(&self, word: &str) -> (r: Rank)
        ensures
            r == rank_in(self.ranks(), word@),
    ;
}

/// Drops one carriage return that ends a line.
pub open spec fn strip_cr(line: Seq<char>) -> Seq<char> {
    if line.len() > 0 && line.last() == '\r' {
        line.drop_last()
    } else {
        line
    }
}

/// The lines of `text` from position `i` on, where the current line began at
/// `start`: lines end at `'\n'` (a `"\r\n"` ending loses its `'\r'`), and a
/// last line without a newline counts only if it is not empty.
pub open spec fn lines_from(text: Seq<char>, start: int, i: int) -> Seq<Seq<char>>
    decreases text.len() - i,
{
    if i >= text.len() {
        if start < text.len() {
            seq![text.subrange(start, text.len() as int)]
        } else {
            Seq::empty()
        }
    } else if text[i] == '\n' {
        seq![strip_cr(text.subrange(start, i))] + lines_from(text, i + 1, i + 1)
    } else {
        lines_from(text, start, i + 1)
    }
}

/// The lines of a newline-delimited text.
pub open spec fn lines_of(text: Seq<char>) -> Seq<Seq<char>> {
    lines_from(text, 0, 0)
}

/// Each word of a list mapped to the index of its last occurrence.
pub open spec fn rank_map(words: Seq<Seq<char>>) -> Map<Seq<char>, usize>
    decreases words.len(),
{
    if words.len() == 0 {
        Map::empty()
    } else {
        rank_map(words.drop_last()).insert(words.last(), (words.len() - 1) as usize)
    }
}

/// A ranked word list: each line of its source is one word, ranked by its
/// line number (0-based).
pub struct RankedSurnames {
    data: StringHashMap<usize>,
}

impl RankedSurnames {
    pub closed spec fn view(&self) -> Map<Seq<char>, usize> {
        self.data@
    }

    /// Builds the ranking of a newline-delimited word list. A word listed
    /// twice keeps the rank of its last line.
    pub fn new(list: &str) -> (r: RankedSurnames)
        ensures
            r@ == rank_map(lines_of(list@)),
    {
        let n = list.unicode_len();
        let mut map: StringHashMap<usize> = StringHashMap::new();
        let ghost mut done: Seq<Seq<char>> = Seq::empty();
        let mut count: usize = 0;
        let mut start: usize = 0;
        let mut i: usize = 0;
        while i < n
            invariant
                n == list@.len(),
                start <= i <= n,
                count == done.len(),
                count <= i,
                done + lines_from(list@, start as int, i as int) == lines_of(list@),
                map@ == rank_map(done),
            decreases n - i,
        {
            if list.get_char(i) == '\n' {
                let mut end = i;
                if end > start && list.get_char(end - 1) == '\r' {
                    end = end - 1;
                }
                let word = list.substring_char(start, end).to_string();
                proof {
                    assert(word@ == strip_cr(list@.subrange(start as int, i as int)));
                }
                map.insert(word, count);
                proof {
                    let line = strip_cr(list@.subrange(start as int, i as int));
                    assert(done.push(line).drop_last() =~= done);
                    assert(seq![line] + lines_from(list@, i + 1, i + 1)
                        == lines_from(list@, start as int, i as int));
                    assert(done + lines_from(list@, start as int, i as int)
                        =~= done.push(line) + lines_from(list@, i + 1, i + 1));
                    done = done.push(line);
                }
                count = count + 1;
                start = i + 1;
            }
            i = i + 1;
        }
        if start < n {
            let word = list.substring_char(start, n).to_string();
            map.insert(word, count);
            proof {
                let line = list@.subrange(start as int, n as int);
                assert(done.push(line).drop_last() =~= done);
                assert(done + lines_from(list@, start as int, n as int) =~= done.push(line));
                done = done.push(line);
            }
        } else {
            assert(done + lines_from(list@, start as int, n as int) =~= done);
        }
        RankedSurnames { data: map }
    }
}

impl Dictionary for RankedSurnames {
    open spec fn ranks(&self) -> Map<Seq<char>, usize> {
        self@
    }

    open spec fn name(&self) -> Seq<char> {
        "RankedSurnames"@
    }

    fn get_name(&self) -> (r: &str) {
        "RankedSurnames"
    }

    fn contains(&self, word: &str) -> (r: bool) {
        self.data.contains_key(word)
    }

    fn rank_of(&self, word: &str) -> (r: Rank) {
        match self.data.get(word) {
            Some(rank) => Rank::Ranking(*rank),
            None => Rank::NoRank,
        }
    }
}

/// The default dictionaries: the ranked surname list given as
/// newline-delimited text.
pub fn default_dict_lib(surnames: &str) -> (r: Vec<RankedSurnames>)
    ensures
        r@.len() == 1,
        r@[0]@ == rank_map(lines_of(surnames@)),
{
    let surnames = RankedSurnames::new(surnames);
    let mut dicts: Vec<RankedSurnames> = Vec::new();
    dicts.push(surnames);
    dicts
}

} // verus!
