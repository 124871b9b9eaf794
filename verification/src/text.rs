//! Character-level helpers over `&str` and `String`.
//!
//! Everything here is stated over `Seq<char>` views; the executable code
//! walks strings with `get_char` / `substring_char` from vstd and proves
//! each result equal to a recursive specification function.

use vstd::prelude::*;
use vstd::string::*;

verus! {

/// Character-by-character equality of two string slices.
pub fn str_eq(a: &str, b: &str) -> (r: bool)
    ensures
        r == (a@ == b@),
{
    let alen = a.unicode_len();
    let blen = b.unicode_len();
    if alen != blen {
        assert(a@.len() != b@.len());
        return false;
    }
    let mut i: usize = 0;
    while i < alen
        invariant
            alen == a@.len(),
            blen == b@.len(),
            alen == blen,
            i <= alen,
            forall|j: int| 0 <= j < i ==> a@[j] == b@[j],
        decreases alen - i,
    {
        if a.get_char(i) != b.get_char(i) {
            assert(a@[i as int] != b@[i as int]);
            return false;
        }
        i += 1;
    }
    assert(a@ =~= b@);
    true
}

/// First index `>= from` holding `c`, if any.
pub open spec fn find_at(s: Seq<char>, from: int, c: char) -> Option<int>
    decreases s.len() - from,
{
    if from < 0 || from >= s.len() {
        None
    } else if s[from] == c {
        Some(from)
    } else {
        find_at(s, from + 1, c)
    }
}

pub proof fn lemma_find_at(s: Seq<char>, from: int, c: char)
    requires
        0 <= from <= s.len(),
    ensures
        match find_at(s, from, c) {
            Some(i) => from <= i < s.len() && s[i] == c && forall|j: int|
                from <= j < i ==> s[j] != c,
            None => forall|j: int| from <= j < s.len() ==> s[j] != c,
        },
    decreases s.len() - from,
{
    if from < s.len() && s[from] != c {
        lemma_find_at(s, from + 1, c);
    }
}

/// First occurrence of `c` in `s` at or after `from`.
pub fn find_char_from(s: &str, from: usize, c: char) -> (r: Option<usize>)
    requires
        from <= s@.len(),
    ensures
        match r {
            Some(i) => find_at(s@, from as int, c) == Some(i as int),
            None => find_at(s@, from as int, c) is None,
        },
{
    let len = s.unicode_len();
    let mut i: usize = from;
    while i < len
        invariant
            from <= i <= len,
            len == s@.len(),
            find_at(s@, from as int, c) == find_at(s@, i as int, c),
        decreases len - i,
    {
        if s.get_char(i) == c {
            return Some(i);
        }
        i += 1;
    }
    None
}

/// Splits `s` at the first occurrence of `c`; `None` when `c` is absent.
pub fn split_once(s: &str, c: char) -> (r: Option<(String, String)>)
    ensures
        match r {
            Some(pair) => find_at(s@, 0, c) matches Some(i) && pair.0@ == s@.subrange(0, i)
                && pair.1@ == s@.subrange(i + 1, s@.len() as int),
            None => find_at(s@, 0, c) is None,
        },
{
    match find_char_from(s, 0, c) {
        Some(i) => {
            proof {
                lemma_find_at(s@, 0, c);
            }
            let left = s.substring_char(0, i);
            let len = s.unicode_len();
            let right = s.substring_char(i + 1, len);
            Some((left.to_owned(), right.to_owned()))
        }
        None => None,
    }
}

/// All fields of `s` delimited by `c`, delimiters removed.
pub open spec fn spec_split(s: Seq<char>, c: char) -> Seq<Seq<char>>
    decreases s.len(),
{
    match find_at(s, 0, c) {
        None => seq![s],
        Some(i) => {
            if 0 <= i < s.len() {
                seq![s.subrange(0, i)] + spec_split(s.subrange(i + 1, s.len() as int), c)
            } else {
                seq![s]  // find_at never yields an index out of range
            }
        }
    }
}

pub fn split_all(s: &str, c: char) -> (r: Vec<String>)
    ensures
        r.deep_view() == spec_split(s@, c),
    decreases s@.len(),
{
    proof {
        lemma_find_at(s@, 0, c);
    }
    match find_char_from(s, 0, c) {
        None => {
            let mut v: Vec<String> = Vec::new();
            v.push(s.to_owned());
            proof {
                assert(v.deep_view() =~= spec_split(s@, c));
            }
            v
        }
        Some(i) => {
            let len = s.unicode_len();
            let head = s.substring_char(0, i);
            let tail = s.substring_char(i + 1, len);
            let mut v = split_all(tail, c);
            let ghost pre = v@;
            let ghost pre_deep = v.deep_view();
            v.insert(0, head.to_owned());
            proof {
                assert forall|j: int| 0 <= j < v@.len() implies v.deep_view()[j] == (seq![
                    head@,
                ] + spec_split(tail@, c))[j] by {
                    assert(v.deep_view()[j] == v@[j].deep_view());
                    if j > 0 {
                        assert(v@[j] == pre[j - 1]);
                        assert(pre_deep[j - 1] == pre[j - 1].deep_view());
                    }
                }
                assert(v.deep_view() =~= seq![head@] + spec_split(tail@, c));
                assert(v.deep_view() =~= spec_split(s@, c));
            }
            v
        }
    }
}

/// Splitting always yields at least one field.
pub proof fn lemma_split_nonempty(s: Seq<char>, c: char)
    ensures
        spec_split(s, c).len() >= 1,
{
    match find_at(s, 0, c) {
        None => {}
        Some(k) => {}
    }
}

/// No field produced by `spec_split` contains the delimiter.
pub proof fn lemma_split_pieces(s: Seq<char>, c: char)
    ensures
        forall|i: int|
            0 <= i < spec_split(s, c).len() ==> find_at(#[trigger] spec_split(s, c)[i], 0, c)
                is None,
    decreases s.len(),
{
    lemma_find_at(s, 0, c);
    match find_at(s, 0, c) {
        None => {
            assert(spec_split(s, c) =~= seq![s]);
        }
        Some(k) => {
            let head = s.subrange(0, k);
            let tail = s.subrange(k + 1, s.len() as int);
            lemma_split_pieces(tail, c);
            assert(find_at(head, 0, c) is None) by {
                lemma_find_at(head, 0, c);
                match find_at(head, 0, c) {
                    Some(m) => {
                        assert(head[m] == c);
                        assert(s[m] == c);
                    }
                    None => {}
                }
            }
            assert forall|i: int|
                0 <= i < spec_split(s, c).len() implies find_at(
                spec_split(s, c)[i],
                0,
                c,
            ) is None by {
                if i > 0 {
                    assert(spec_split(s, c)[i] == spec_split(tail, c)[i - 1]);
                }
            }
        }
    }
}

pub open spec fn is_space(c: char) -> bool {
    c == ' ' || c == '\t' || c == '\n' || c == '\r'
}

fn is_space_char(c: char) -> (r: bool)
    ensures
        r == is_space(c),
{
    c == ' ' || c == '\t' || c == '\n' || c == '\r'
}

/// Index of the first non-space character at or after `from`; `s.len()` if none.
pub open spec fn first_non_space(s: Seq<char>, from: int) -> int
    decreases s.len() - from,
{
    if from < 0 || from >= s.len() {
        s.len() as int
    } else if is_space(s[from]) {
        first_non_space(s, from + 1)
    } else {
        from
    }
}

/// One past the last non-space character before `upto`; `0` if none.
pub open spec fn last_non_space(s: Seq<char>, upto: int) -> int
    decreases upto,
{
    if upto <= 0 || upto > s.len() {
        0
    } else if is_space(s[upto - 1]) {
        last_non_space(s, upto - 1)
    } else {
        upto
    }
}

/// `s` with leading and trailing spaces removed.
pub open spec fn spec_trim(s: Seq<char>) -> Seq<char> {
    let a = first_non_space(s, 0);
    let b = last_non_space(s, s.len() as int);
    if a <= b {
        s.subrange(a, b)
    } else {
        Seq::empty()
    }
}

proof fn lemma_first_non_space(s: Seq<char>, from: int)
    requires
        0 <= from <= s.len(),
    ensures
        from <= first_non_space(s, from) <= s.len(),
    decreases s.len() - from,
{
    if from < s.len() && is_space(s[from]) {
        lemma_first_non_space(s, from + 1);
    }
}

proof fn lemma_last_non_space(s: Seq<char>, upto: int)
    requires
        0 <= upto <= s.len(),
    ensures
        0 <= last_non_space(s, upto) <= upto,
    decreases upto,
{
    if 0 < upto && is_space(s[upto - 1]) {
        lemma_last_non_space(s, upto - 1);
    }
}

pub fn trim_spaces(s: &str) -> (r: String)
    ensures
        r@ == spec_trim(s@),
{
    let len = s.unicode_len();
    let mut a: usize = 0;
    while a < len && is_space_char(s.get_char(a))
        invariant
            0 <= a <= len,
            len == s@.len(),
            first_non_space(s@, 0) == first_non_space(s@, a as int),
        decreases len - a,
    {
        a += 1;
    }
    proof {
        lemma_first_non_space(s@, a as int);
        assert(first_non_space(s@, 0) == a);
    }
    let mut b: usize = len;
    while b > a && is_space_char(s.get_char(b - 1))
        invariant
            a <= b <= len,
            len == s@.len(),
            first_non_space(s@, 0) == a,
            last_non_space(s@, len as int) == last_non_space(s@, b as int),
        decreases b,
    {
        b -= 1;
    }
    proof {
        lemma_last_non_space(s@, b as int);
    }
    if a >= b {
        String::new()
    } else {
        let r = s.substring_char(a, b);
        r.to_owned()
    }
}

/// Whether some element of `v` reads `s`.
pub fn contains_str(v: &Vec<String>, s: &str) -> (r: bool)
    ensures
        r == exists|i: int| 0 <= i < v.deep_view().len() && v.deep_view()[i] == s@,
{
    let n = v.len();
    let mut i: usize = 0;
    while i < n
        invariant
            0 <= i <= n,
            n == v@.len(),
            forall|j: int| 0 <= j < i ==> v.deep_view()[j] != s@,
        decreases n - i,
    {
        if str_eq(v[i].as_str(), s) {
            proof {
                assert(v.deep_view()[i as int] == s@);
            }
            return true;
        }
        i += 1;
    }
    false
}

/// Decimal digit character for `d < 10`.
pub open spec fn digit_char(d: int) -> char {
    if d == 0 {
        '0'
    } else if d == 1 {
        '1'
    } else if d == 2 {
        '2'
    } else if d == 3 {
        '3'
    } else if d == 4 {
        '4'
    } else if d == 5 {
        '5'
    } else if d == 6 {
        '6'
    } else if d == 7 {
        '7'
    } else if d == 8 {
        '8'
    } else {
        '9'
    }
}

/// Decimal text of `n`, most significant digit first.
pub open spec fn dec_digits(n: nat) -> Seq<char>
    decreases n,
{
    if n < 10 {
        seq![digit_char(n as int)]
    } else {
        dec_digits(n / 10) + seq![digit_char((n % 10) as int)]
    }
}

pub fn digit_str(d: u64) -> (r: &'static str)
    requires
        d < 10,
    ensures
        r@ =~= seq![digit_char(d as int)],
{
    proof {
        reveal_strlit("0");
        reveal_strlit("1");
        reveal_strlit("2");
        reveal_strlit("3");
        reveal_strlit("4");
        reveal_strlit("5");
        reveal_strlit("6");
        reveal_strlit("7");
        reveal_strlit("8");
        reveal_strlit("9");
    }
    if d == 0 {
        "0"
    } else if d == 1 {
        "1"
    } else if d == 2 {
        "2"
    } else if d == 3 {
        "3"
    } else if d == 4 {
        "4"
    } else if d == 5 {
        "5"
    } else if d == 6 {
        "6"
    } else if d == 7 {
        "7"
    } else if d == 8 {
        "8"
    } else {
        "9"
    }
}

/// Decimal rendering of `n`.
pub fn format_u64(n: u64) -> (r: String)
    ensures
        r@ == dec_digits(n as nat),
    decreases n,
{
    if n < 10 {
        digit_str(n).to_owned()
    } else {
        let mut head = format_u64(n / 10);
        head.append(digit_str(n % 10));
        head
    }
}

} // verus!
