use vstd::prelude::*;
use vstd::std_specs::iter::IteratorSpec;

verus! {

/// `String::push` appends one character at the end.
pub assume_specification[ String::push ](string: &mut String, ch: char)
    ensures
        final(string)@ == old(string)@.push(ch),
;

/// The characters of `s`, in order.
pub fn chars_of(s: &str) -> (v: Vec<char>)
    ensures
        v@ == s@,
{
    let mut v: Vec<char> = Vec::new();
    let mut it = s.chars();
    assert(it.remaining() == s@);
    loop
        invariant
            v@ + it.remaining() == s@,
            it.decrease() is Some,
        ensures
            v@ == s@,
        decreases it.decrease()->0,
    {
        match it.next() {
            Some(c) => {
                v.push(c);
            },
            None => {
                assert(v@ + it.remaining() == v@);
                break;
            },
        }
    }
    v
}


/// The characters of `v`, gathered into a `String`.
pub fn string_of(v: &Vec<char>) -> (s: String)
    ensures
        s@ == v@,
{
    let mut s = String::new();
    let mut i: usize = 0;
    while i < v.len()
        invariant
            i <= v.len(),
            s@ == v@.take(i as int),
        decreases v.len() - i,
    {
        s.push(v[i]);
        assert(v@.take(i + 1) == v@.take(i as int).push(v@[i as int]));
        i += 1;
    }
    assert(v@.take(v.len() as int) == v@);
    s
}

/// The characters of `v` from `lo` up to `hi`.
pub fn sub_chars(v: &Vec<char>, lo: usize, hi: usize) -> (r: Vec<char>)
    requires
        lo <= hi <= v.len(),
    ensures
        r@ == v@.subrange(lo as int, hi as int),
{
    let mut r: Vec<char> = Vec::new();
    let mut i: usize = lo;
    while i < hi
        invariant
            lo <= i <= hi <= v.len(),
            r@ == v@.subrange(lo as int, i as int),
        decreases hi - i,
    {
        r.push(v[i]);
        assert(v@.subrange(lo as int, i + 1) == v@.subrange(lo as int, i as int).push(v@[i as int]));
        i += 1;
    }
    r
}

/// What `char::is_whitespace` accepts: the characters of Unicode's
/// White_Space property.
pub open spec fn is_white_space(c: char) -> bool {
    let u = c as u32;
    ||| 0x09 <= u <= 0x0d
    ||| u == 0x20
    ||| u == 0x85
    ||| u == 0xa0
    ||| u == 0x1680
    ||| 0x2000 <= u <= 0x200a
    ||| u == 0x2028
    ||| u == 0x2029
    ||| u == 0x202f
    ||| u == 0x205f
    ||| u == 0x3000
}

/// Whether `c` is a Unicode white-space character.
pub fn white_space(c: char) -> (b: bool)
    ensures
        b == is_white_space(c),
{
    let u = c as u32;
    (0x09 <= u && u <= 0x0d) || u == 0x20 || u == 0x85 || u == 0xa0 || u == 0x1680 || (0x2000
        <= u && u <= 0x200a) || u == 0x2028 || u == 0x2029 || u == 0x202f || u == 0x205f || u
        == 0x3000
}

/// The characters that a trim removes: `/` when `slashes`, white space
/// otherwise.
pub open spec fn trimmed(c: char, slashes: bool) -> bool {
    if slashes {
        c == '/'
    } else {
        is_white_space(c)
    }
}

/// `s` without its leading trimmed characters.
pub open spec fn trim_front(s: Seq<char>, slashes: bool) -> Seq<char>
    decreases s.len(),
{
    if s.len() > 0 && trimmed(s[0], slashes) {
        trim_front(s.drop_first(), slashes)
    } else {
        s
    }
}

/// `s` without its trailing trimmed characters.
pub open spec fn trim_back(s: Seq<char>, slashes: bool) -> Seq<char>
    decreases s.len(),
{
    if s.len() > 0 && trimmed(s.last(), slashes) {
        trim_back(s.drop_last(), slashes)
    } else {
        s
    }
}

/// `s` without its leading and trailing trimmed characters: `str::trim`
/// for white space, `str::trim_matches('/')` for slashes.
pub open spec fn trim_both(s: Seq<char>, slashes: bool) -> Seq<char> {
    trim_back(trim_front(s, slashes), slashes)
}

/// Trimming the front stops at the first character that is not trimmed.
pub proof fn lemma_trim_front_at(s: Seq<char>, slashes: bool, k: int)
    requires
        0 <= k <= s.len(),
        forall|j: int| 0 <= j < k ==> trimmed(#[trigger] s[j], slashes),
        k == s.len() || !trimmed(s[k], slashes),
    ensures
        trim_front(s, slashes) == s.skip(k),
    decreases k,
{
    if k > 0 {
        let t = s.drop_first();
        assert forall|j: int| 0 <= j < k - 1 implies trimmed(#[trigger] t[j], slashes) by {
            assert(t[j] == s[j + 1]);
        }
        if k < s.len() {
            assert(t[k - 1] == s[k]);
        }
        lemma_trim_front_at(t, slashes, k - 1);
        assert(t.skip(k - 1) == s.skip(k));
    } else {
        assert(s.skip(0) == s);
    }
}

/// Trimming the back stops after the last character that is not trimmed.
pub proof fn lemma_trim_back_at(s: Seq<char>, slashes: bool, m: int)
    requires
        0 <= m <= s.len(),
        forall|j: int| m <= j < s.len() ==> trimmed(#[trigger] s[j], slashes),
        m == 0 || !trimmed(s[m - 1], slashes),
    ensures
        trim_back(s, slashes) == s.take(m),
    decreases s.len() - m,
{
    if m < s.len() {
        let t = s.drop_last();
        assert forall|j: int| m <= j < t.len() implies trimmed(#[trigger] t[j], slashes) by {
            assert(t[j] == s[j]);
        }
        if m > 0 {
            assert(t[m - 1] == s[m - 1]);
        }
        lemma_trim_back_at(t, slashes, m);
        assert(t.take(m) == s.take(m));
    } else {
        assert(s.take(m) == s);
    }
}

/// Whether `c` is removed by a trim of the given sort.
pub fn is_trimmed(c: char, slashes: bool) -> (b: bool)
    ensures
        b == trimmed(c, slashes),
{
    if slashes {
        c == '/'
    } else {
        white_space(c)
    }
}

/// `v` without its leading and trailing trimmed characters.
pub fn trim_chars(v: &Vec<char>, slashes: bool) -> (r: Vec<char>)
    ensures
        r@ == trim_both(v@, slashes),
{
    let n = v.len();
    let mut lo: usize = 0;
    while lo < n && is_trimmed(v[lo], slashes)
        invariant
            lo <= n,
            n == v.len(),
            forall|j: int| 0 <= j < lo ==> trimmed(#[trigger] v@[j], slashes),
        decreases n - lo,
    {
        lo += 1;
    }
    proof {
        lemma_trim_front_at(v@, slashes, lo as int);
    }
    let mut hi: usize = n;
    while hi > lo && is_trimmed(v[hi - 1], slashes)
        invariant
            lo <= hi <= n,
            n == v.len(),
            forall|j: int| hi <= j < n ==> trimmed(#[trigger] v@[j], slashes),
        decreases hi,
    {
        hi -= 1;
    }
    proof {
        let t = v@.skip(lo as int);
        assert forall|j: int| hi - lo <= j < t.len() implies trimmed(#[trigger] t[j], slashes) by {
            assert(t[j] == v@[j + lo]);
        }
        if hi > lo {
            assert(t[hi - lo - 1] == v@[hi - 1]);
        }
        lemma_trim_back_at(t, slashes, hi - lo);
        assert(t.take(hi - lo) == v@.subrange(lo as int, hi as int));
    }
    sub_chars(v, lo, hi)
}

/// Whether `pat` occurs in `s` at index `i`.
pub open spec fn occurs_at(s: Seq<char>, i: int, pat: Seq<char>) -> bool {
    0 <= i && i + pat.len() <= s.len() && s.subrange(i, i + pat.len()) == pat
}

/// The first index from `i` on where `pat` occurs in `s`.
pub open spec fn find_from(s: Seq<char>, pat: Seq<char>, i: int) -> Option<int>
    decreases s.len() + 1 - i,
{
    if i < 0 || i + pat.len() > s.len() {
        None
    } else if occurs_at(s, i, pat) {
        Some(i)
    } else {
        find_from(s, pat, i + 1)
    }
}

/// The first index where `pat` occurs in `s` (what `str::find` gives, counted
/// in characters).
pub open spec fn find(s: Seq<char>, pat: Seq<char>) -> Option<int> {
    find_from(s, pat, 0)
}

/// Whether `s` begins with `pat`.
pub open spec fn starts_with(s: Seq<char>, pat: Seq<char>) -> bool {
    pat.len() <= s.len() && s.take(pat.len() as int) == pat
}

/// Whether `pat` occurs in `v` at index `i`.
pub fn matches_at(v: &Vec<char>, i: usize, pat: &Vec<char>) -> (b: bool)
    ensures
        b == occurs_at(v@, i as int, pat@),
{
    let n = v.len();
    let m = pat.len();
    if i > n || m > n - i {
        return false;
    }
    let mut k: usize = 0;
    while k < m
        invariant
            k <= m,
            m == pat.len(),
            n == v.len(),
            i + m <= n,
            forall|j: int| 0 <= j < k ==> v@[i + j] == pat@[j],
        decreases m - k,
    {
        if v[i + k] != pat[k] {
            assert(v@.subrange(i as int, i + m)[k as int] != pat@[k as int]);
            return false;
        }
        k += 1;
    }
    assert(v@.subrange(i as int, i + m) =~= pat@);
    true
}

/// Whether `v` begins with `pat`.
pub fn begins_with(v: &Vec<char>, pat: &Vec<char>) -> (b: bool)
    ensures
        b == starts_with(v@, pat@),
{
    matches_at(v, 0, pat)
}

/// Whether `a` and `b` hold the same characters.
pub fn same_chars(a: &Vec<char>, b: &Vec<char>) -> (r: bool)
    ensures
        r == (a@ == b@),
{
    if a.len() != b.len() {
        return false;
    }
    let r = matches_at(a, 0, b);
    assert(a@.subrange(0, a@.len() as int) == a@);
    r
}

/// The first index where `pat` occurs in `v`.
pub fn find_chars(v: &Vec<char>, pat: &Vec<char>) -> (r: Option<usize>)
    ensures
        match r {
            Some(i) => find(v@, pat@) == Some(i as int),
            None => find(v@, pat@) is None,
        },
{
    let n = v.len();
    let m = pat.len();
    if m > n {
        return None;
    }
    if m == 0 {
        assert(v@.subrange(0, 0) =~= pat@);
        return Some(0);
    }
    let mut i: usize = 0;
    while i <= n - m
        invariant
            i <= n - m + 1,
            n == v.len(),
            m == pat.len(),
            1 <= m <= n,
            find_from(v@, pat@, 0) == find_from(v@, pat@, i as int),
        decreases n - m + 1 - i,
    {
        if matches_at(v, i, pat) {
            return Some(i);
        }
        i += 1;
    }
    None
}

/// The index of the first `c` in `s` from `i` on, or the length of `s`.
pub open spec fn index_of_from(s: Seq<char>, c: char, i: int) -> int
    decreases s.len() - i,
{
    if i < 0 || i >= s.len() {
        s.len() as int
    } else if s[i] == c {
        i
    } else {
        index_of_from(s, c, i + 1)
    }
}

/// The index of the first `c` in `s`, or the length of `s` when there is none.
pub open spec fn index_of(s: Seq<char>, c: char) -> int {
    index_of_from(s, c, 0)
}

/// The index of the first `c` in `v`, or the length of `v`.
pub fn position_of(v: &Vec<char>, c: char) -> (r: usize)
    ensures
        r == index_of(v@, c),
{
    let mut i: usize = 0;
    while i < v.len() && v[i] != c
        invariant
            i <= v.len(),
            index_of_from(v@, c, 0) == index_of_from(v@, c, i as int),
        decreases v.len() - i,
    {
        i += 1;
    }
    i
}


/// `index_of_from` lands on the first `c` at or after `i`, or at the end.
pub proof fn lemma_index_of_from(s: Seq<char>, c: char, i: int)
    requires
        0 <= i <= s.len(),
    ensures
        i <= index_of_from(s, c, i) <= s.len(),
        forall|j: int| i <= j < index_of_from(s, c, i) ==> s[j] != c,
        index_of_from(s, c, i) < s.len() ==> s[index_of_from(s, c, i)] == c,
    decreases s.len() - i,
{
    if i < s.len() && s[i] != c {
        lemma_index_of_from(s, c, i + 1);
    }
}

/// `index_of` lands on the first `c`, or at the end when there is none.
pub proof fn lemma_index_of(s: Seq<char>, c: char)
    ensures
        0 <= index_of(s, c) <= s.len(),
        forall|j: int| 0 <= j < index_of(s, c) ==> s[j] != c,
        index_of(s, c) < s.len() ==> s[index_of(s, c)] == c,
{
    lemma_index_of_from(s, c, 0);
}

/// An index before which no `c` occurs, and which holds `c` or is the end,
/// is the one `index_of` gives.
pub proof fn lemma_index_of_is(s: Seq<char>, c: char, k: int)
    requires
        0 <= k <= s.len(),
        forall|j: int| 0 <= j < k ==> s[j] != c,
        k < s.len() ==> s[k] == c,
    ensures
        index_of(s, c) == k,
{
    lemma_index_of(s, c);
}

/// A match that `find_from` reports is a real match at or after `i`.
pub proof fn lemma_find_from_some(s: Seq<char>, pat: Seq<char>, i: int)
    ensures
        find_from(s, pat, i) matches Some(p) ==> i <= p && occurs_at(s, p, pat),
    decreases s.len() + 1 - i,
{
    if !(i < 0 || i + pat.len() > s.len()) && !occurs_at(s, i, pat) {
        lemma_find_from_some(s, pat, i + 1);
    }
}

/// A match with no match before it is the one `find` reports.
pub proof fn lemma_find_first(s: Seq<char>, pat: Seq<char>, p: int)
    requires
        occurs_at(s, p, pat),
        forall|j: int| 0 <= j < p ==> !occurs_at(s, j, pat),
    ensures
        find(s, pat) == Some(p),
{
    lemma_find_first_from(s, pat, p, 0);
}

proof fn lemma_find_first_from(s: Seq<char>, pat: Seq<char>, p: int, i: int)
    requires
        0 <= i <= p,
        occurs_at(s, p, pat),
        forall|j: int| 0 <= j < p ==> !occurs_at(s, j, pat),
    ensures
        find_from(s, pat, i) == Some(p),
    decreases p - i,
{
    if i < p {
        assert(!occurs_at(s, i, pat));
        lemma_find_first_from(s, pat, p, i + 1);
    }
}

/// The decimal digit for `d`.
pub open spec fn digit_char(d: nat) -> char {
    if d == 0 {
        '0'
    } else if d == 1 {
        '1'
    } else if d == 2 {
        '2'
    } else if d == 3 {
        '3'
    } else if d == 4 {
        '4'
    } else if d == 5 {
        '5'
    } else if d == 6 {
        '6'
    } else if d == 7 {
        '7'
    } else if d == 8 {
        '8'
    } else {
        '9'
    }
}

/// `n` written in decimal, without leading zeros (what `{}` prints for an
/// unsigned integer).
pub open spec fn decimal(n: nat) -> Seq<char>
    decreases n,
{
    if n < 10 {
        seq![digit_char(n)]
    } else {
        decimal(n / 10).push(digit_char(n % 10))
    }
}

fn digit(d: usize) -> (c: char)
    requires
        d < 10,
    ensures
        c == digit_char(d as nat),
{
    if d == 0 {
        '0'
    } else if d == 1 {
        '1'
    } else if d == 2 {
        '2'
    } else if d == 3 {
        '3'
    } else if d == 4 {
        '4'
    } else if d == 5 {
        '5'
    } else if d == 6 {
        '6'
    } else if d == 7 {
        '7'
    } else if d == 8 {
        '8'
    } else {
        '9'
    }
}

/// Appends `n` written in decimal to `out`.
pub fn push_decimal(out: &mut Vec<char>, n: usize)
    ensures
        final(out)@ == old(out)@ + decimal(n as nat),
    decreases n,
{
    if n < 10 {
        out.push(digit(n));
    } else {
        push_decimal(out, n / 10);
        out.push(digit(n % 10));
        assert(old(out)@ + decimal(n as nat) == old(out)@ + decimal((n / 10) as nat) + seq![
            digit_char((n % 10) as nat),
        ]);
    }
}


/// The number that a string of decimal digits stands for.
pub open spec fn decimal_value(s: Seq<char>) -> int
    decreases s.len(),
{
    if s.len() == 0 {
        0
    } else {
        decimal_value(s.drop_last()) * 10 + ((s.last() as u32) - ('0' as u32))
    }
}

/// Law: the digit for `d` is the character `d` places after `0`.
pub proof fn lemma_digit_char_code(d: nat)
    requires
        d < 10,
    ensures
        (digit_char(d) as u32) == ('0' as u32) + d,
{
}

/// Law: `decimal(n)` is what `{}` prints for `n`: a non-empty string of the
/// digits `0` to `9`, with no leading zero unless it is `0` itself, that reads
/// back as `n` in base 10.
pub proof fn lemma_decimal_reads_back(n: nat)
    ensures
        decimal(n).len() > 0,
        forall|i: int| 0 <= i < decimal(n).len() ==> '0' <= #[trigger] decimal(n)[i] <= '9',
        decimal(n).len() > 1 ==> decimal(n)[0] != '0',
        decimal_value(decimal(n)) == n,
    decreases n,
{
    lemma_digit_char_code(n % 10);
    if n >= 10 {
        let q = n / 10;
        lemma_decimal_reads_back(q);
        let s = decimal(n);
        assert(s == decimal(q).push(digit_char(n % 10)));
        assert(s.drop_last() =~= decimal(q));
        assert forall|i: int| 0 <= i < s.len() implies '0' <= #[trigger] s[i] <= '9' by {
            if i < s.len() - 1 {
                assert(s[i] == decimal(q)[i]);
            }
        }
        if q < 10 {
            lemma_digit_char_code(q);
            assert(decimal(q) =~= seq![digit_char(q)]);
            assert(decimal(q)[0] != '0');
        } else {
            lemma_decimal_reads_back(q / 10);
            assert(decimal(q).len() > 1);
        }
        assert(s[0] == decimal(q)[0]);
        assert(s.last() == digit_char(n % 10));
        assert(decimal_value(s) == decimal_value(decimal(q)) * 10 + (n % 10));
        assert(q * 10 + n % 10 == n);
    } else {
        let s = decimal(n);
        assert(s =~= seq![digit_char(n)]);
        assert(s.drop_last() =~= Seq::<char>::empty());
        assert(s.last() == digit_char(n));
        assert(decimal_value(s) == decimal_value(s.drop_last()) * 10 + ((s.last() as u32) - (
        '0' as u32)));
    }
}

} // verus!
