//! Text building blocks: string assembly and number formatting.

use vstd::prelude::*;
use vstd::std_specs::iter::IteratorSpec;

verus! {

broadcast use vstd::string::group_string_axioms;

/// Appends one character (`String::push`).
#[verifier::external_body]
pub(crate) fn string_push(s: &mut String, c: char)
    ensures
        final(s)@ == old(s)@.push(c),
{
    s.push(c);
}

/// Appends a string slice.
pub fn string_append(s: &mut String, t: &str)
    ensures
        final(s)@ == old(s)@ + t@,
{
    s.append(t);
}

/// An owned copy of a string slice.
pub fn owned(t: &str) -> (r: String)
    ensures
        r@ == t@,
{
    String::from_str(t)
}

/// The character of a digit value below 16, lower-case for values above 9.
pub open spec fn digit_char(d: nat) -> char {
    if d < 10 {
        (48 + d) as char
    } else {
        (87 + d) as char
    }
}

/// Decimal notation of `n`, without sign or leading zeros.
pub open spec fn decimal(n: nat) -> Seq<char>
    decreases n,
{
    if n < 10 {
        seq![digit_char(n)]
    } else {
        decimal(n / 10).push(digit_char(n % 10))
    }
}

/// Lower-case hexadecimal notation of `n`, without prefix or leading zeros.
pub open spec fn hex_lower(n: nat) -> Seq<char>
    decreases n,
{
    if n < 16 {
        seq![digit_char(n)]
    } else {
        hex_lower(n / 16).push(digit_char(n % 16))
    }
}

pub fn digit(d: u64) -> (c: char)
    requires
        d < 16,
    ensures
        c == digit_char(d as nat),
{
    if d < 10 {
        ((48 + d) as u8) as char
    } else {
        ((87 + d) as u8) as char
    }
}

/// Appends the decimal notation of `n`.
pub fn push_decimal(s: &mut String, n: u64)
    ensures
        final(s)@ == old(s)@ + decimal(n as nat),
    decreases n,
{
    if n < 10 {
        let c = digit(n);
        string_push(s, c);
        assert(old(s)@.push(c) =~= old(s)@ + seq![c]);
    } else {
        push_decimal(s, n / 10);
        let c = digit(n % 10);
        string_push(s, c);
        assert(old(s)@ + decimal(n as nat) =~= old(s)@ + decimal((n / 10) as nat) + seq![c]);
    }
}

/// Appends the lower-case hexadecimal notation of `n`.
pub fn push_hex_lower(s: &mut String, n: u64)
    ensures
        final(s)@ == old(s)@ + hex_lower(n as nat),
    decreases n,
{
    if n < 16 {
        let c = digit(n);
        string_push(s, c);
        assert(old(s)@.push(c) =~= old(s)@ + seq![c]);
    } else {
        push_hex_lower(s, n / 16);
        let c = digit(n % 16);
        string_push(s, c);
        assert(old(s)@ + hex_lower(n as nat) =~= old(s)@ + hex_lower((n / 16) as nat) + seq![c]);
    }
}

/// The decimal notation of `n` as a new string.
pub fn decimal_string(n: u64) -> (r: String)
    ensures
        r@ == decimal(n as nat),
{
    let mut s = String::new();
    push_decimal(&mut s, n);
    assert(Seq::<char>::empty() + decimal(n as nat) =~= decimal(n as nat));
    s
}


/// The characters of a string slice, in order.
pub fn chars_of(s: &str) -> (v: Vec<char>)
    ensures
        v@ == s@,
{
    let mut v: Vec<char> = Vec::new();
    let mut it = s.chars();
    loop
        invariant
            v@ + it.remaining() == s@,
            it.obeys_prophetic_iter_laws(),
            it.decrease() is Some,
        ensures
            v@ == s@,
        decreases it.decrease()->0,
    {
        match it.next() {
            Some(c) => {
                v.push(c);
            },
            None => {
                assert(v@ + it.remaining() =~= v@);
                break ;
            },
        }
    }
    v
}

/// A string made of the given characters.
pub fn string_of(cs: &[char]) -> (r: String)
    ensures
        r@ == cs@,
{
    let mut r = String::new();
    let mut i: usize = 0;
    while i < cs.len()
        invariant
            i <= cs.len(),
            r@ == cs@.take(i as int),
        decreases cs.len() - i,
    {
        string_push(&mut r, cs[i]);
        assert(cs@.take(i as int + 1) =~= cs@.take(i as int).push(cs[i as int]));
        i = i + 1;
    }
    assert(cs@.take(cs.len() as int) =~= cs@);
    r
}

/// Unicode `White_Space` (what `char::is_whitespace` and `str::trim` use).
pub open spec fn is_white_space(c: char) -> bool {
    let u = c as u32;
    (0x09 <= u <= 0x0D) || u == 0x20 || u == 0x85 || u == 0xA0 || u == 0x1680 || (0x2000 <= u
        <= 0x200A) || u == 0x2028 || u == 0x2029 || u == 0x202F || u == 0x205F || u == 0x3000
}

pub fn white_space(c: char) -> (b: bool)
    ensures
        b == is_white_space(c),
{
    let u = c as u32;
    (0x09 <= u && u <= 0x0D) || u == 0x20 || u == 0x85 || u == 0xA0 || u == 0x1680 || (0x2000
        <= u && u <= 0x200A) || u == 0x2028 || u == 0x2029 || u == 0x202F || u == 0x205F || u
        == 0x3000
}

/// `s` without leading white space.
pub open spec fn trim_start(s: Seq<char>) -> Seq<char>
    decreases s.len(),
{
    if s.len() > 0 && is_white_space(s[0]) {
        trim_start(s.drop_first())
    } else {
        s
    }
}

/// `s` without trailing white space.
pub open spec fn trim_end(s: Seq<char>) -> Seq<char>
    decreases s.len(),
{
    if s.len() > 0 && is_white_space(s.last()) {
        trim_end(s.drop_last())
    } else {
        s
    }
}

/// `s` without leading and trailing white space (`str::trim`).
pub open spec fn trim(s: Seq<char>) -> Seq<char> {
    trim_end(trim_start(s))
}

/// Bounds `[lo, hi)` of the trimmed part of `cs[from..to]`.
pub fn trim_bounds(cs: &[char], from: usize, to: usize) -> (r: (usize, usize))
    requires
        from <= to <= cs.len(),
    ensures
        from <= r.0 <= r.1 <= to,
        cs@.subrange(r.0 as int, r.1 as int) == trim(cs@.subrange(from as int, to as int)),
{
    let mut lo = from;
    while lo < to && white_space(cs[lo])
        invariant
            from <= lo <= to <= cs.len(),
            trim_start(cs@.subrange(from as int, to as int)) == trim_start(
                cs@.subrange(lo as int, to as int),
            ),
        decreases to - lo,
    {
        assert(cs@.subrange(lo as int, to as int).drop_first() =~= cs@.subrange(
            lo as int + 1,
            to as int,
        ));
        lo = lo + 1;
    }
    assert(trim_start(cs@.subrange(lo as int, to as int)) == cs@.subrange(lo as int, to as int));
    let mut hi = to;
    while hi > lo && white_space(cs[hi - 1])
        invariant
            from <= lo <= hi <= to <= cs.len(),
            trim_end(cs@.subrange(lo as int, to as int)) == trim_end(
                cs@.subrange(lo as int, hi as int),
            ),
        decreases hi - lo,
    {
        assert(cs@.subrange(lo as int, hi as int).drop_last() =~= cs@.subrange(
            lo as int,
            hi as int - 1,
        ));
        hi = hi - 1;
    }
    (lo, hi)
}

/// `str::trim`, as a new string.
pub fn trimmed(s: &str) -> (r: String)
    ensures
        r@ == trim(s@),
{
    let cs = chars_of(s);
    let (lo, hi) = trim_bounds(&cs, 0, cs.len());
    assert(cs@.subrange(0, cs@.len() as int) =~= cs@);
    string_of(&cs[lo..hi])
}


/// ASCII lower-casing of one character; other characters are kept.
pub open spec fn ascii_lower(c: char) -> char {
    if 'A' <= c <= 'Z' {
        ((c as u32) + 32) as char
    } else {
        c
    }
}

/// ASCII lower-casing of every character (`str::to_ascii_lowercase`).
pub open spec fn ascii_lowercase(s: Seq<char>) -> Seq<char> {
    s.map_values(|c: char| ascii_lower(c))
}

/// Equality up to ASCII case (`str::eq_ignore_ascii_case`).
pub open spec fn eq_ignore_ascii_case(a: Seq<char>, b: Seq<char>) -> bool {
    ascii_lowercase(a) == ascii_lowercase(b)
}

pub fn lower_char(c: char) -> (r: char)
    ensures
        r == ascii_lower(c),
{
    if 'A' <= c && c <= 'Z' {
        ((c as u8) + 32) as char
    } else {
        c
    }
}

/// `cs[from..to]` and `lit` are equal up to ASCII case.
pub fn chars_eq_ignore_ascii_case(cs: &[char], from: usize, to: usize, lit: &str) -> (r: bool)
    requires
        from <= to <= cs.len(),
    ensures
        r == eq_ignore_ascii_case(cs@.subrange(from as int, to as int), lit@),
{
    let l = chars_of(lit);
    let a = Ghost(cs@.subrange(from as int, to as int));
    if to - from != l.len() {
        proof {
            assert(ascii_lowercase(a@).len() != ascii_lowercase(l@).len());
        }
        return false;
    }
    let mut i: usize = 0;
    while i < l.len()
        invariant
            from <= to <= cs.len(),
            to - from == l.len(),
            l@ == lit@,
            a@ == cs@.subrange(from as int, to as int),
            i <= l.len(),
            forall|j: int| 0 <= j < i ==> ascii_lower(#[trigger] a@[j]) == ascii_lower(l@[j]),
        decreases l.len() - i,
    {
        if lower_char(cs[from + i]) != lower_char(l[i]) {
            proof {
                assert(ascii_lowercase(a@)[i as int] != ascii_lowercase(l@)[i as int]);
                assert(ascii_lowercase(a@) != ascii_lowercase(l@));
            }
            return false;
        }
        i = i + 1;
    }
    assert(ascii_lowercase(a@) =~= ascii_lowercase(l@));
    true
}

/// `cs[from..to]` spells `lit` exactly.
pub fn chars_eq(cs: &[char], from: usize, to: usize, lit: &str) -> (r: bool)
    requires
        from <= to <= cs.len(),
    ensures
        r == (cs@.subrange(from as int, to as int) == lit@),
{
    let l = chars_of(lit);
    if to - from != l.len() {
        return false;
    }
    let mut i: usize = 0;
    while i < l.len()
        invariant
            from <= to <= cs.len(),
            to - from == l.len(),
            l@ == lit@,
            i <= l.len(),
            forall|j: int| 0 <= j < i ==> cs@[from + j] == l@[j],
        decreases l.len() - i,
    {
        if cs[from + i] != l[i] {
            assert(cs@.subrange(from as int, to as int)[i as int] != l@[i as int]);
            assert(cs@.subrange(from as int, to as int) != l@);
            return false;
        }
        i = i + 1;
    }
    assert(cs@.subrange(from as int, to as int) =~= l@);
    true
}

/// `a` and `b` are equal up to ASCII case.
pub fn str_eq_ignore_ascii_case(a: &str, b: &str) -> (r: bool)
    ensures
        r == eq_ignore_ascii_case(a@, b@),
{
    let cs = chars_of(a);
    assert(cs@.subrange(0, cs@.len() as int) =~= cs@);
    chars_eq_ignore_ascii_case(&cs, 0, cs.len(), b)
}

/// `a` and `b` are the same text.
pub fn str_eq(a: &str, b: &str) -> (r: bool)
    ensures
        r == (a@ == b@),
{
    let cs = chars_of(a);
    assert(cs@.subrange(0, cs@.len() as int) =~= cs@);
    chars_eq(&cs, 0, cs.len(), b)
}


/// Index of the first `c` in `s`.
pub open spec fn first_index(s: Seq<char>, c: char) -> Option<int>
    decreases s.len(),
{
    if s.len() == 0 {
        None
    } else if s[0] == c {
        Some(0)
    } else {
        match first_index(s.drop_first(), c) {
            Some(i) => Some(i + 1),
            None => None,
        }
    }
}

/// `s` cut at every `c` (`str::split`): the pieces between separators, in order.
pub open spec fn split_char(s: Seq<char>, c: char) -> Seq<Seq<char>>
    decreases s.len(),
{
    match first_index(s, c) {
        Some(i) => {
            if 0 <= i < s.len() {
                seq![s.take(i)] + split_char(s.skip(i + 1), c)
            } else {
                seq![s]
            }
        },
        None => seq![s],
    }
}

pub proof fn lemma_first_index(s: Seq<char>, c: char, k: int)
    requires
        0 <= k <= s.len(),
        forall|j: int| 0 <= j < k ==> s[j] != c,
    ensures
        k < s.len() && s[k] == c ==> first_index(s, c) == Some(k),
        k == s.len() ==> first_index(s, c) is None,
    decreases k,
{
    if k > 0 {
        lemma_first_index(s.drop_first(), c, k - 1);
    }
}

/// The first `c` in `cs[from..to]`, as an index of `cs`.
pub fn find_char(cs: &[char], from: usize, to: usize, c: char) -> (r: Option<usize>)
    requires
        from <= to <= cs.len(),
    ensures
        r matches Some(p) ==> from <= p < to && cs@[p as int] == c && first_index(
            cs@.subrange(from as int, to as int),
            c,
        ) == Some(p - from),
        r is None ==> first_index(cs@.subrange(from as int, to as int), c) is None,
{
    let mut i = from;
    while i < to
        invariant
            from <= i <= to <= cs.len(),
            forall|j: int| from <= j < i ==> cs@[j] != c,
        decreases to - i,
    {
        if cs[i] == c {
            proof {
                lemma_first_index(cs@.subrange(from as int, to as int), c, (i - from) as int);
            }
            return Some(i);
        }
        i = i + 1;
    }
    proof {
        lemma_first_index(cs@.subrange(from as int, to as int), c, (to - from) as int);
    }
    None
}


/// Index of the last `c` in `s`.
pub open spec fn last_index(s: Seq<char>, c: char) -> Option<int>
    decreases s.len(),
{
    if s.len() == 0 {
        None
    } else if s.last() == c {
        Some(s.len() - 1)
    } else {
        last_index(s.drop_last(), c)
    }
}

pub proof fn lemma_last_index(s: Seq<char>, c: char, k: int)
    requires
        -1 <= k < s.len(),
        forall|j: int| k < j < s.len() ==> s[j] != c,
    ensures
        k >= 0 && s[k] == c ==> last_index(s, c) == Some(k),
        k == -1 ==> last_index(s, c) is None,
    decreases s.len() - k,
{
    if k + 1 < s.len() {
        assert(s.last() != c);
        lemma_last_index(s.drop_last(), c, k);
    } else if k >= 0 {
    } else {
    }
}

/// The last `c` in `cs[from..to]`, as an index of `cs`.
pub fn find_last_char(cs: &[char], from: usize, to: usize, c: char) -> (r: Option<usize>)
    requires
        from <= to <= cs.len(),
    ensures
        r matches Some(p) ==> from <= p < to && cs@[p as int] == c && last_index(
            cs@.subrange(from as int, to as int),
            c,
        ) == Some(p - from),
        r is None ==> last_index(cs@.subrange(from as int, to as int), c) is None,
{
    let mut i = to;
    while i > from
        invariant
            from <= i <= to <= cs.len(),
            forall|j: int| i <= j < to ==> cs@[j] != c,
        decreases i - from,
    {
        if cs[i - 1] == c {
            proof {
                lemma_last_index(cs@.subrange(from as int, to as int), c, (i - 1 - from) as int);
            }
            return Some(i - 1);
        }
        i = i - 1;
    }
    proof {
        lemma_last_index(cs@.subrange(from as int, to as int), c, -1);
    }
    None
}

/// `s` begins with `p`.
pub open spec fn starts_with(s: Seq<char>, p: Seq<char>) -> bool {
    p.len() <= s.len() && s.take(p.len() as int) == p
}

/// `cs[from..to]` begins with `lit`; the index just past it when it does.
pub fn strip_prefix_at(cs: &[char], from: usize, to: usize, lit: &str) -> (r: Option<usize>)
    requires
        from <= to <= cs.len(),
    ensures
        r matches Some(k) ==> k == from + lit@.len() && k <= to && starts_with(
            cs@.subrange(from as int, to as int),
            lit@,
        ),
        r is None ==> !starts_with(cs@.subrange(from as int, to as int), lit@),
{
    let l = chars_of(lit);
    if l.len() > to - from {
        return None;
    }
    let end = from + l.len();
    let eq = chars_eq(cs, from, end, lit);
    assert(cs@.subrange(from as int, to as int).take(l.len() as int) =~= cs@.subrange(
        from as int,
        end as int,
    ));
    if eq {
        Some(end)
    } else {
        None
    }
}

/// `str::starts_with` with a string prefix.
pub fn str_starts_with(s: &str, prefix: &str) -> (r: bool)
    ensures
        r == starts_with(s@, prefix@),
{
    let cs = chars_of(s);
    assert(cs@.subrange(0, cs@.len() as int) =~= s@);
    strip_prefix_at(&cs, 0, cs.len(), prefix).is_some()
}

/// Index of the first occurrence of `p` in `s`.
pub open spec fn find_seq(s: Seq<char>, p: Seq<char>) -> Option<int>
    decreases s.len(),
{
    if s.len() < p.len() {
        None
    } else if starts_with(s, p) {
        Some(0)
    } else if s.len() == 0 {
        None
    } else {
        match find_seq(s.drop_first(), p) {
            Some(i) => Some(i + 1),
            None => None,
        }
    }
}

proof fn lemma_find_seq(s: Seq<char>, p: Seq<char>, k: int)
    requires
        0 <= k <= s.len(),
        forall|j: int| 0 <= j < k ==> !starts_with(#[trigger] s.skip(j), p),
    ensures
        k + p.len() <= s.len() && starts_with(s.skip(k), p) ==> find_seq(s, p) == Some(k),
        k + p.len() > s.len() ==> find_seq(s, p) is None,
    decreases k,
{
    if k > 0 {
        assert(s.skip(0) =~= s);
        assert forall|j: int| 0 <= j < k - 1 implies !starts_with(
            #[trigger] s.drop_first().skip(j),
            p,
        ) by {
            assert(s.drop_first().skip(j) =~= s.skip(j + 1));
        }
        assert(s.drop_first().skip(k - 1) =~= s.skip(k));
        lemma_find_seq(s.drop_first(), p, k - 1);
    } else {
        assert(s.skip(0) =~= s);
    }
}

/// The first occurrence of `lit` in `cs[from..to]`, as an index of `cs`.
pub fn find_str(cs: &[char], from: usize, to: usize, lit: &str) -> (r: Option<usize>)
    requires
        from <= to <= cs.len(),
    ensures
        r matches Some(p) ==> from <= p <= to && find_seq(cs@.subrange(from as int, to as int), lit@)
            == Some(p - from),
        r is None ==> find_seq(cs@.subrange(from as int, to as int), lit@) is None,
{
    let ghost sub = cs@.subrange(from as int, to as int);
    let l = chars_of(lit);
    if l.len() == 0 {
        assert(sub.skip(0) =~= sub);
        assert(sub.take(0) =~= lit@);
        proof {
            lemma_find_seq(sub, lit@, 0);
        }
        return Some(from);
    }
    let mut i = from;
    while i < to && l.len() <= to - i
        invariant
            from <= i <= to <= cs.len(),
            sub == cs@.subrange(from as int, to as int),
            l@ == lit@,
            forall|j: int| 0 <= j < i - from ==> !starts_with(#[trigger] sub.skip(j), lit@),
        decreases to - i,
    {
        let hit = strip_prefix_at(cs, i, to, lit);
        assert(sub.skip(i - from) =~= cs@.subrange(i as int, to as int));
        if hit.is_some() {
            proof {
                lemma_find_seq(sub, lit@, (i - from) as int);
            }
            return Some(i);
        }
        i = i + 1;
    }
    proof {
        lemma_find_seq(sub, lit@, (i - from) as int);
    }
    None
}

/// `c` is an ASCII decimal digit.
pub open spec fn is_ascii_digit(c: char) -> bool {
    '0' <= c <= '9'
}

/// Every character of `s` is an ASCII decimal digit.
pub open spec fn all_ascii_digits(s: Seq<char>) -> bool {
    forall|i: int| 0 <= i < s.len() ==> is_ascii_digit(#[trigger] s[i])
}

/// The number that the decimal digits `s` denote.
pub open spec fn digits_value(s: Seq<char>) -> nat
    decreases s.len(),
{
    if s.len() == 0 {
        0
    } else {
        digits_value(s.drop_last()) * 10 + ((s.last() as u32) - 48) as nat
    }
}

/// Every character of `cs[from..to]` is an ASCII decimal digit.
pub fn chars_all_digits(cs: &[char], from: usize, to: usize) -> (r: bool)
    requires
        from <= to <= cs.len(),
    ensures
        r == all_ascii_digits(cs@.subrange(from as int, to as int)),
{
    let mut i = from;
    while i < to
        invariant
            from <= i <= to <= cs.len(),
            forall|j: int| from <= j < i ==> is_ascii_digit(#[trigger] cs@[j]),
        decreases to - i,
    {
        if !('0' <= cs[i] && cs[i] <= '9') {
            assert(cs@.subrange(from as int, to as int)[i - from] == cs@[i as int]);
            return false;
        }
        i = i + 1;
    }
    assert forall|j: int| 0 <= j < to - from implies is_ascii_digit(
        #[trigger] cs@.subrange(from as int, to as int)[j],
    ) by {
        assert(cs@.subrange(from as int, to as int)[j] == cs@[from + j]);
    }
    true
}

/// A new string of the characters `cs[from..to]`.
pub fn substring(cs: &[char], from: usize, to: usize) -> (r: String)
    requires
        from <= to <= cs.len(),
    ensures
        r@ == cs@.subrange(from as int, to as int),
{
    string_of(vstd::slice::slice_subrange(cs, from, to))
}


proof fn lemma_trim_end_prefix(x: Seq<char>)
    ensures
        trim_end(x).len() <= x.len(),
        trim_end(x) == x.take(trim_end(x).len() as int),
        trim_end(x).len() > 0 ==> !is_white_space(trim_end(x).last()),
    decreases x.len(),
{
    if x.len() > 0 && is_white_space(x.last()) {
        lemma_trim_end_prefix(x.drop_last());
        let k = trim_end(x).len() as int;
        assert(x.drop_last().take(k) =~= x.take(k));
    } else {
        assert(x.take(x.len() as int) =~= x);
    }
}

proof fn lemma_trim_start_first(x: Seq<char>)
    ensures
        trim_start(x).len() > 0 ==> !is_white_space(trim_start(x)[0]),
    decreases x.len(),
{
    if x.len() > 0 && is_white_space(x[0]) {
        lemma_trim_start_first(x.drop_first());
    }
}

/// Trimming twice is trimming once.
pub proof fn lemma_trim_idempotent(s: Seq<char>)
    ensures
        trim(trim(s)) == trim(s),
{
    let x = trim_start(s);
    lemma_trim_start_first(s);
    lemma_trim_end_prefix(x);
    let u = trim_end(x);
    if u.len() > 0 {
        assert(u[0] == x[0]);
    }
    assert(trim_start(u) == u);
    lemma_trim_end_prefix(u);
    assert(trim_end(u) == u);
}


/// What `{:?}` prints for a string slice.
pub uninterp spec fn spec_debug_str(s: Seq<char>) -> Seq<char>;

/// The `Debug` text of `s` (`<str as Debug>::fmt`): quoted, with escapes.
#[verifier::external_body]
pub(crate) fn debug_str(s: &str) -> (r: String)
    ensures
        r@ == spec_debug_str(s@),
{
    format!("{s:?}")
}

} // verus!
