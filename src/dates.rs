use vstd::prelude::*;

verus! {

pub open spec fn is_digit(c: char) -> bool {
    '0' <= c && c <= '9'
}

pub open spec fn all_digits(s: Seq<char>) -> bool {
    forall|k: int| 0 <= k < s.len() ==> is_digit(#[trigger] s[k])
}

/// The number that a string of decimal digits denotes.
pub open spec fn digits_value(s: Seq<char>) -> int
    decreases s.len(),
{
    if s.len() == 0 {
        0
    } else {
        digits_value(s.drop_last()) * 10 + (s.last() as int - '0' as int)
    }
}

/// Month field of an unseparated date: one digit, or two starting with 0 or 1.
pub open spec fn month_digits(s: Seq<char>) -> bool {
    s.len() == 1 || (s.len() == 2 && (s[0] == '0' || s[0] == '1'))
}

/// Day field of an unseparated date: one digit, or two starting with 0 to 3.
pub open spec fn day_digits(s: Seq<char>) -> bool {
    s.len() == 1 || (s.len() == 2 && '0' <= s[0] && s[0] <= '3')
}

/// Year field of an unseparated date: two digits, or four starting with 1 or 2.
pub open spec fn year_digits(s: Seq<char>) -> bool {
    s.len() == 2 || (s.len() == 4 && (s[0] == '1' || s[0] == '2'))
}

pub open spec fn field_fits(kind: int, s: Seq<char>) -> bool {
    if kind == 0 {
        day_digits(s)
    } else if kind == 1 {
        month_digits(s)
    } else {
        year_digits(s)
    }
}

/// `s` reads as three fields of kinds `k1`, `k2`, `k3` (0 day, 1 month,
/// 2 year), the first `a` characters long, the second `b`.
pub open spec fn fields_fit(s: Seq<char>, k1: int, k2: int, k3: int, a: int, b: int) -> bool {
    &&& 0 <= a
    &&& 0 <= b
    &&& a + b <= s.len()
    &&& field_fits(k1, s.subrange(0, a))
    &&& field_fits(k2, s.subrange(a, a + b))
    &&& field_fits(k3, s.subrange(a + b, s.len() as int))
}

/// `s` splits at `a` and `a + b` into month-day-year, day-month-year,
/// year-month-day or year-day-month.
pub open spec fn any_split_fits(s: Seq<char>, a: int, b: int) -> bool {
    fields_fit(s, 1, 0, 2, a, b) || fields_fit(s, 0, 1, 2, a, b) || fields_fit(s, 2, 1, 0, a, b)
        || fields_fit(s, 2, 0, 1, a, b)
}

/// A window that reads as a date without separators: four to eight digits;
/// four digits where either half has no zero; longer ones where they split
/// into day, month and year in one of the accepted orders.
pub open spec fn no_sep_date(s: Seq<char>) -> bool {
    &&& 4 <= s.len() <= 8
    &&& all_digits(s)
    &&& if s.len() == 4 {
        (s[0] != '0' && s[1] != '0') || (s[2] != '0' && s[3] != '0')
    } else {
        exists|a: int, b: int| #[trigger] any_split_fits(s, a, b)
    }
}

pub open spec fn is_separator(c: char) -> bool {
    c == '.' || c == ',' || c == ';' || c == '-' || c == '/'
}

/// An outer field of a separated date: one, two or four digits.
pub open spec fn outer_field(s: Seq<char>) -> bool {
    all_digits(s) && (s.len() == 1 || s.len() == 2 || s.len() == 4)
}

/// The middle field of a separated date: one or two digits.
pub open spec fn middle_field(s: Seq<char>) -> bool {
    all_digits(s) && (s.len() == 1 || s.len() == 2)
}

/// `s` is three digit fields joined by one separator at `i` and the same
/// separator at `j`.
pub open spec fn sep_split(s: Seq<char>, i: int, j: int) -> bool {
    &&& 0 <= i < j < s.len()
    &&& is_separator(s[i])
    &&& s[j] == s[i]
    &&& outer_field(s.subrange(0, i))
    &&& middle_field(s.subrange(i + 1, j))
    &&& outer_field(s.subrange(j + 1, s.len() as int))
}

/// The shape of a separated date, whatever its values.
pub open spec fn sep_shape(s: Seq<char>) -> bool {
    exists|i: int, j: int| #[trigger] sep_split(s, i, j)
}

pub open spec fn is_day_value(s: Seq<char>) -> bool {
    1 <= digits_value(s) <= 31
}

pub open spec fn is_year_value(s: Seq<char>) -> bool {
    (s.len() == 4 && 1000 <= digits_value(s) <= 2999) || s.len() == 2
}

/// Fields that make a date: the middle one a month, and day then year or
/// year then day round it.
pub open spec fn valid_fields(g1: Seq<char>, g2: Seq<char>, g3: Seq<char>) -> bool {
    &&& 1 <= digits_value(g2) <= 12
    &&& (is_day_value(g1) && is_year_value(g3)) || (is_day_value(g3) && is_year_value(g1))
}

/// A window that reads as a date with separators.
pub open spec fn sep_date(s: Seq<char>) -> bool {
    exists|i: int, j: int|
        #[trigger] sep_split(s, i, j) && valid_fields(
            s.subrange(0, i),
            s.subrange(i + 1, j),
            s.subrange(j + 1, s.len() as int),
        )
}

/// The characters of `v` in `[lo, hi)`.
pub fn window(v: &Vec<char>, lo: usize, hi: usize) -> (r: Vec<char>)
    requires
        lo <= hi <= v@.len(),
    ensures
        r@ == v@.subrange(lo as int, hi as int),
{
    let mut r: Vec<char> = Vec::new();
    let mut k: usize = lo;
    while k < hi
        invariant
            lo <= k <= hi <= v@.len(),
            r@ == v@.subrange(lo as int, k as int),
        decreases hi - k,
    {
        r.push(v[k]);
        proof {
            assert(r@ =~= v@.subrange(lo as int, k + 1));
        }
        k = k + 1;
    }
    r
}

fn digit(c: char) -> (r: bool)
    ensures
        r == is_digit(c),
{
    '0' <= c && c <= '9'
}

/// Whether `w[lo..hi]` is all decimal digits.
fn digits_between(w: &Vec<char>, lo: usize, hi: usize) -> (r: bool)
    requires
        lo <= hi <= w@.len(),
    ensures
        r == all_digits(w@.subrange(lo as int, hi as int)),
{
    let mut k: usize = lo;
    while k < hi
        invariant
            lo <= k <= hi <= w@.len(),
            all_digits(w@.subrange(lo as int, k as int)),
        decreases hi - k,
    {
        if !digit(w[k]) {
            assert(w@.subrange(lo as int, hi as int)[k - lo] == w@[k as int]);
            return false;
        }
        k = k + 1;
    }
    true
}

/// The value of the digits `w[lo..hi]`, or 10000 where it is larger.
fn capped_value_between(w: &Vec<char>, lo: usize, hi: usize) -> (r: u32)
    requires
        lo <= hi <= w@.len(),
        all_digits(w@.subrange(lo as int, hi as int)),
    ensures
        r as int == capped(digits_value(w@.subrange(lo as int, hi as int))),
{
    let mut v: u32 = 0;
    let mut k: usize = lo;
    while k < hi
        invariant
            lo <= k <= hi <= w@.len(),
            all_digits(w@.subrange(lo as int, hi as int)),
            v as int == capped(digits_value(w@.subrange(lo as int, k as int))),
            digits_value(w@.subrange(lo as int, k as int)) >= 0,
        decreases hi - k,
    {
        let c = w[k];
        assert(w@.subrange(lo as int, hi as int)[k - lo] == c);
        let d = (c as u32) - ('0' as u32);
        proof {
            let s = w@.subrange(lo as int, k + 1);
            assert(s.drop_last() =~= w@.subrange(lo as int, k as int));
            assert(s.last() == c);
        }
        if v < 10000 {
            v = v * 10 + d;
            if v > 10000 {
                v = 10000;
            }
        }
        k = k + 1;
    }
    v
}

/// A value, or 10000 where it is larger: enough to tell days, months and
/// years apart.
pub open spec fn capped(v: int) -> int {
    if v > 10000 {
        10000
    } else {
        v
    }
}

/// Whether `w[lo..hi]` fits a field of the given kind (0 day, 1 month, 2 year).
fn field_between(w: &Vec<char>, lo: usize, hi: usize, kind: u8) -> (r: bool)
    requires
        lo <= hi <= w@.len(),
    ensures
        r == field_fits(kind as int, w@.subrange(lo as int, hi as int)),
{
    let len = hi - lo;
    if kind == 0 {
        len == 1 || (len == 2 && '0' <= w[lo] && w[lo] <= '3')
    } else if kind == 1 {
        len == 1 || (len == 2 && (w[lo] == '0' || w[lo] == '1'))
    } else {
        len == 2 || (len == 4 && (w[lo] == '1' || w[lo] == '2'))
    }
}

fn fields_between(w: &Vec<char>, k1: u8, k2: u8, k3: u8, a: usize, b: usize) -> (r: bool)
    requires
        a as int + b as int <= w@.len(),
    ensures
        r == fields_fit(w@, k1 as int, k2 as int, k3 as int, a as int, b as int),
{
    let n = w.len();
    let ab: usize = a + b;
    field_between(w, 0, a, k1) && field_between(w, a, ab, k2) && field_between(w, ab, n, k3)
}

/// Whether a window of four to eight characters reads as a date without
/// separators.
pub fn valid_no_seperator(w: &Vec<char>) -> (r: bool)
    ensures
        r == no_sep_date(w@),
{
    let n = w.len();
    if n < 4 || n > 8 {
        return false;
    }
    if !digits_between(w, 0, n) {
        assert(w@.subrange(0, n as int) =~= w@);
        return false;
    }
    assert(w@.subrange(0, n as int) =~= w@);
    if n == 4 {
        return (w[0] != '0' && w[1] != '0') || (w[2] != '0' && w[3] != '0');
    }
    let mut a: usize = 1;
    while a <= 4
        invariant
            5 <= n <= 8,
            n == w@.len(),
            all_digits(w@),
            1 <= a <= 5,
            forall|x: int, y: int| x < a ==> !#[trigger] any_split_fits(w@, x, y),
        decreases 5 - a,
    {
        let mut b: usize = 1;
        while b <= 4
            invariant
                5 <= n <= 8,
                n == w@.len(),
                all_digits(w@),
                1 <= a <= 4,
                1 <= b <= 5,
                forall|x: int, y: int| x < a ==> !#[trigger] any_split_fits(w@, x, y),
                forall|y: int| y < b ==> !#[trigger] any_split_fits(w@, a as int, y),
            decreases 5 - b,
        {
            if a + b <= n {
                if fields_between(w, 1, 0, 2, a, b) || fields_between(w, 0, 1, 2, a, b)
                    || fields_between(w, 2, 1, 0, a, b) || fields_between(w, 2, 0, 1, a, b) {
                    assert(any_split_fits(w@, a as int, b as int));
                    return true;
                }
            }
            b = b + 1;
        }
        proof {
            assert forall|y: int| !#[trigger] any_split_fits(w@, a as int, y) by {
                if y >= 5 && a + y <= n {
                    assert(w@.subrange(a as int, a + y).len() == y);
                }
            }
        }
        a = a + 1;
    }
    proof {
        assert forall|x: int, y: int| !#[trigger] any_split_fits(w@, x, y) by {
            if x >= 5 && x + y <= n && y >= 0 {
                assert(w@.subrange(0, x).len() == x);
            }
        }
    }
    false
}

/// The first position at or after `from` that holds no digit, or the length.
fn first_non_digit(w: &Vec<char>, from: usize) -> (k: usize)
    requires
        from <= w@.len(),
    ensures
        from <= k <= w@.len(),
        forall|x: int| from <= x < k ==> is_digit(#[trigger] w@[x]),
        k < w@.len() ==> !is_digit(w@[k as int]),
{
    let n = w.len();
    let mut k: usize = from;
    while k < n && digit(w[k])
        invariant
            from <= k <= n == w@.len(),
            forall|x: int| from <= x < k ==> is_digit(#[trigger] w@[x]),
        decreases n - k,
    {
        k = k + 1;
    }
    k
}

/// The two separator positions of a window with the shape of a separated
/// date, if it has that shape.
fn find_sep_split(w: &Vec<char>) -> (r: Option<(usize, usize)>)
    ensures
        match r {
            Some((i, j)) => sep_split(w@, i as int, j as int),
            None => !sep_shape(w@),
        },
{
    let n = w.len();
    let i = first_non_digit(w, 0);
    if i == n || !is_sep_char(w[i]) {
        proof {
            assert forall|x: int, y: int| !#[trigger] sep_split(w@, x, y) by {
                if sep_split(w@, x, y) {
                    if x < i {
                        assert(is_digit(w@[x]));
                    } else if x > i {
                        assert(w@.subrange(0, x)[i as int] == w@[i as int]);
                    }
                }
            }
        }
        return None;
    }
    let j = first_non_digit(w, i + 1);
    let tail = j < n && digits_between(w, j + 1, n);
    if j == n || w[j] != w[i] || !tail {
        proof {
            assert forall|x: int, y: int| !#[trigger] sep_split(w@, x, y) by {
                if sep_split(w@, x, y) {
                    if x < i {
                        assert(is_digit(w@[x]));
                    } else if x > i {
                        assert(w@.subrange(0, x)[i as int] == w@[i as int]);
                    }
                    if y < j {
                        assert(is_digit(w@[y]));
                    } else if y > j {
                        assert(w@.subrange(x + 1, y)[j - x - 1] == w@[j as int]);
                    }
                }
            }
        }
        return None;
    }
    let len1 = i;
    let len2 = j - i - 1;
    let len3 = n - j - 1;
    let ok = (len1 == 1 || len1 == 2 || len1 == 4) && (len2 == 1 || len2 == 2) && (len3 == 1
        || len3 == 2 || len3 == 4);
    proof {
        assert(all_digits(w@.subrange(0, i as int)));
        assert(all_digits(w@.subrange(i + 1, j as int)));
        assert forall|x: int, y: int| #[trigger] sep_split(w@, x, y) implies x == i && y == j by {
            if x < i {
                assert(is_digit(w@[x]));
            } else if x > i {
                assert(w@.subrange(0, x)[i as int] == w@[i as int]);
            }
            if y < j {
                assert(is_digit(w@[y]));
            } else if y > j {
                assert(w@.subrange(x + 1, y)[j - x - 1] == w@[j as int]);
            }
        }
    }
    if ok {
        Some((i, j))
    } else {
        None
    }
}

fn is_sep_char(c: char) -> (r: bool)
    ensures
        r == is_separator(c),
{
    c == '.' || c == ',' || c == ';' || c == '-' || c == '/'
}

/// Whether a window has the shape of a separated date: three digit fields
/// (one, two or four digits outside, one or two in the middle) joined twice
/// by the same separator out of `. , ; - /`.
pub fn maybe_date_sep(w: &Vec<char>) -> (r: bool)
    ensures
        r == sep_shape(w@),
{
    find_sep_split(w).is_some()
}

/// Day and year readings of a field of digits, however long.
fn valid_d_y(w: &Vec<char>, lo: usize, hi: usize) -> (r: (bool, bool))
    requires
        lo < hi <= w@.len(),
        all_digits(w@.subrange(lo as int, hi as int)),
    ensures
        r.0 == is_day_value(w@.subrange(lo as int, hi as int)),
        r.1 == is_year_value(w@.subrange(lo as int, hi as int)),
{
    let num = capped_value_between(w, lo, hi);
    let len = hi - lo;
    let day = 1 <= num && num <= 31;
    let year = (len == 4 && 1000 <= num && num <= 2999) || len == 2;
    (day, year)
}

/// Whether the digit fields round the positions `i` and `j` make a date,
/// whatever their lengths.
fn valid_with_sep(w: &Vec<char>, i: usize, j: usize) -> (r: bool)
    requires
        0 < i,
        i + 1 < j,
        j + 1 < w@.len(),
        all_digits(w@.subrange(0, i as int)),
        all_digits(w@.subrange(i + 1, j as int)),
        all_digits(w@.subrange(j + 1, w@.len() as int)),
    ensures
        r == valid_fields(
            w@.subrange(0, i as int),
            w@.subrange(i + 1, j as int),
            w@.subrange(j + 1, w@.len() as int),
        ),
{
    let n = w.len();
    let month = capped_value_between(w, i + 1, j);
    if month < 1 || month > 12 {
        return false;
    }
    let (d1, y1) = valid_d_y(w, 0, i);
    let (d3, y3) = valid_d_y(w, j + 1, n);
    (d1 && y3) || (d3 && y1)
}

/// Whether a window reads as a date with separators.
pub fn valid_sep_date(w: &Vec<char>) -> (r: bool)
    ensures
        r == sep_date(w@),
{
    match find_sep_split(w) {
        Some((i, j)) => {
            let r = valid_with_sep(w, i, j);
            proof {
                assert forall|x: int, y: int| #[trigger] sep_split(w@, x, y) implies x == i && y
                    == j by {
                    if x < i {
                        assert(w@.subrange(0, i as int)[x] == w@[x]);
                    } else if x > i {
                        assert(w@.subrange(0, x)[i as int] == w@[i as int]);
                    }
                    if y < j {
                        assert(w@.subrange(i + 1, j as int)[y - i - 1] == w@[y]);
                    } else if y > j {
                        assert(w@.subrange(x + 1, y)[j - x - 1] == w@[j as int]);
                    }
                }
            }
            r
        },
        None => false,
    }
}

} // verus!
