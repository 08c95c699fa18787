//! Character-level text helpers shared by the rest of the library.

use vstd::prelude::*;

verus! {

/// Calls std's `String::push`. Claimed: the string afterwards is the old
/// one followed by `c`.
#[verifier::external_body]
pub(crate) fn push_char(s: &mut String, c: char)
    ensures
        final(s)@ == old(s)@.push(c),
{
    s.push(c);
}

/// The characters of a string slice, in order.
pub fn chars_of(s: &str) -> (v: Vec<char>)
    ensures
        v@ == s@,
{
    let mut v: Vec<char> = Vec::new();
    for c in it: s.chars()
        invariant
            v@ == it.seq().take(it.index() as int),
    {
        v.push(c);
    }
    v
}

/// A string made of the given characters.
pub fn string_of(cs: &Vec<char>) -> (s: String)
    ensures
        s@ == cs@,
{
    let mut s = String::new();
    let mut i: usize = 0;
    while i < cs.len()
        invariant
            i <= cs.len(),
            s@ == cs@.take(i as int),
        decreases cs.len() - i,
    {
        push_char(&mut s, cs[i]);
        i = i + 1;
        assert(cs@.take(i as int) == cs@.take((i - 1) as int).push(cs@[i - 1]));
    }
    assert(cs@.take(cs.len() as int) == cs@);
    s
}

} // verus!

verus! {

/// The ASCII digit for `d` (`d < 10`).
pub open spec fn digit_char(d: nat) -> char {
    (48 + d) as char
}

/// Decimal notation of a natural number, without leading zeros.
pub open spec fn nat_decimal(n: nat) -> Seq<char>
    decreases n,
{
    if n < 10 {
        seq![digit_char(n)]
    } else {
        nat_decimal(n / 10).push(digit_char(n % 10))
    }
}

/// Decimal notation of an integer, with a leading `-` when negative.
pub open spec fn int_decimal(i: int) -> Seq<char> {
    if i < 0 {
        seq!['-'] + nat_decimal((-i) as nat)
    } else {
        nat_decimal(i as nat)
    }
}

/// Appends the decimal notation of `n`.
pub fn push_decimal(out: &mut Vec<char>, n: u64)
    ensures
        final(out)@ == old(out)@ + nat_decimal(n as nat),
    decreases n,
{
    if n >= 10 {
        push_decimal(out, n / 10);
    }
    let d = (n % 10) as u8;
    let c = (48u8 + d) as char;
    out.push(c);
    assert(c == digit_char((n % 10) as nat));
}

/// Appends the decimal notation of a signed integer.
pub fn push_signed_decimal(out: &mut Vec<char>, n: i64)
    ensures
        final(out)@ == old(out)@ + int_decimal(n as int),
{
    if n < 0 {
        out.push('-');
        let mag: u64 = (0i128 - (n as i128)) as u64;
        push_decimal(out, mag);
        assert(old(out)@.push('-') + nat_decimal(mag as nat) == old(out)@ + (seq!['-']
            + nat_decimal(mag as nat)));
    } else {
        push_decimal(out, n as u64);
    }
}

/// Appends all characters of `s`.
pub fn push_str(out: &mut Vec<char>, s: &str)
    ensures
        final(out)@ == old(out)@ + s@,
{
    let cs = chars_of(s);
    push_all(out, &cs);
}

/// Appends all characters of `cs`.
pub fn push_all(out: &mut Vec<char>, cs: &Vec<char>)
    ensures
        final(out)@ == old(out)@ + cs@,
{
    let ghost start = out@;
    let mut i: usize = 0;
    while i < cs.len()
        invariant
            i <= cs.len(),
            out@ == start + cs@.take(i as int),
        decreases cs.len() - i,
    {
        out.push(cs[i]);
        i = i + 1;
        assert(cs@.take(i as int) == cs@.take((i - 1) as int).push(cs@[i - 1]));
    }
    assert(cs@.take(cs.len() as int) == cs@);
}

/// Decimal text of an unsigned integer (`n.to_string()`).
pub fn u64_text(n: u64) -> (s: String)
    ensures
        s@ == nat_decimal(n as nat),
{
    let mut v: Vec<char> = Vec::new();
    push_decimal(&mut v, n);
    assert(v@ == nat_decimal(n as nat));
    string_of(&v)
}

/// Decimal text of a signed integer (`n.to_string()`).
pub fn i64_text(n: i64) -> (s: String)
    ensures
        s@ == int_decimal(n as int),
{
    let mut v: Vec<char> = Vec::new();
    push_signed_decimal(&mut v, n);
    assert(v@ == int_decimal(n as int));
    string_of(&v)
}

/// Whether `p` is a prefix of `s`.
pub open spec fn has_prefix(s: Seq<char>, p: Seq<char>) -> bool {
    p.len() <= s.len() && s.take(p.len() as int) == p
}

/// Whether `p` is a suffix of `s`.
pub open spec fn has_suffix(s: Seq<char>, p: Seq<char>) -> bool {
    p.len() <= s.len() && s.skip(s.len() - p.len()) == p
}

/// Whether `p` occurs in `s` starting at index `i`.
pub open spec fn occurs_at(s: Seq<char>, p: Seq<char>, i: int) -> bool {
    0 <= i && i + p.len() <= s.len() && s.subrange(i, i + p.len()) == p
}

/// Whether `p` occurs anywhere in `s`.
pub open spec fn contains_seq(s: Seq<char>, p: Seq<char>) -> bool {
    exists|i: int| occurs_at(s, p, i)
}

/// Whether `p` occurs in `s` at index `i` (executable check).
pub fn matches_at(s: &Vec<char>, p: &Vec<char>, i: usize) -> (b: bool)
    ensures
        b == occurs_at(s@, p@, i as int),
{
    if i > s.len() || p.len() > s.len() - i {
        return false;
    }
    let mut j: usize = 0;
    while j < p.len()
        invariant
            i + p.len() <= s.len(),
            j <= p.len(),
            forall|k: int| 0 <= k < j ==> s@[i + k] == p@[k],
        decreases p.len() - j,
    {
        if s[i + j] != p[j] {
            assert(s@.subrange(i as int, i + p.len())[j as int] != p@[j as int]);
            return false;
        }
        j = j + 1;
    }
    assert(s@.subrange(i as int, i + p.len()) =~= p@);
    true
}

/// Whether `s` starts with `p`.
pub fn starts_with(s: &Vec<char>, p: &Vec<char>) -> (b: bool)
    ensures
        b == has_prefix(s@, p@),
{
    let b = matches_at(s, p, 0);
    assert(s@.take(p@.len() as int) == s@.subrange(0, p@.len() as int));
    b
}

/// Whether `s` ends with `p`.
pub fn ends_with(s: &Vec<char>, p: &Vec<char>) -> (b: bool)
    ensures
        b == has_suffix(s@, p@),
{
    if p.len() > s.len() {
        return false;
    }
    let b = matches_at(s, p, s.len() - p.len());
    assert(s@.skip(s@.len() - p@.len()) == s@.subrange(s@.len() - p@.len(), s@.len() as int));
    b
}

/// The first index at which `p` occurs in `s`, if any.
pub open spec fn first_occurrence(s: Seq<char>, p: Seq<char>) -> Option<int> {
    if contains_seq(s, p) {
        Some(choose|i: int| occurs_at(s, p, i) && forall|j: int| 0 <= j < i ==> !occurs_at(s, p, j))
    } else {
        None
    }
}

/// The first index at which `p` occurs in `s` (`str::find`).
pub fn find(s: &Vec<char>, p: &Vec<char>) -> (r: Option<usize>)
    ensures
        match r {
            Some(i) => occurs_at(s@, p@, i as int) && forall|j: int|
                0 <= j < i ==> !occurs_at(s@, p@, j),
            None => !contains_seq(s@, p@),
        },
{
    let mut i: usize = 0;
    while i < s.len()
        invariant
            i <= s.len(),
            forall|j: int| 0 <= j < i ==> !occurs_at(s@, p@, j),
        decreases s.len() - i,
    {
        if matches_at(s, p, i) {
            return Some(i);
        }
        i = i + 1;
    }
    if matches_at(s, p, i) {
        return Some(i);
    }
    assert forall|j: int| !occurs_at(s@, p@, j) by {
        if 0 <= j <= i {
        }
    }
    None
}

/// Whether `p` occurs in `s`.
pub fn contains(s: &Vec<char>, p: &Vec<char>) -> (b: bool)
    ensures
        b == contains_seq(s@, p@),
{
    match find(s, p) {
        Some(i) => true,
        None => false,
    }
}

/// Whether the character occurs in `s`.
pub fn has_char(s: &Vec<char>, c: char) -> (b: bool)
    ensures
        b == s@.contains(c),
{
    let mut i: usize = 0;
    while i < s.len()
        invariant
            i <= s.len(),
            forall|j: int| 0 <= j < i ==> s@[j] != c,
        decreases s.len() - i,
    {
        if s[i] == c {
            return true;
        }
        i = i + 1;
    }
    false
}

/// Characters `from..to` of `s`.
pub fn slice(s: &Vec<char>, from: usize, to: usize) -> (r: Vec<char>)
    requires
        from <= to <= s.len(),
    ensures
        r@ == s@.subrange(from as int, to as int),
{
    let mut r: Vec<char> = Vec::new();
    let mut i = from;
    while i < to
        invariant
            from <= i <= to <= s.len(),
            r@ == s@.subrange(from as int, i as int),
        decreases to - i,
    {
        r.push(s[i]);
        i = i + 1;
        assert(r@ =~= s@.subrange(from as int, i as int));
    }
    r
}

} // verus!

verus! {

/// The pieces of `s` between occurrences of `sep`, as `str::split` gives them.
pub open spec fn split_pieces(s: Seq<char>, sep: char) -> Seq<Seq<char>>
    decreases s.len(),
{
    if s.len() == 0 {
        seq![Seq::<char>::empty()]
    } else {
        let p = split_pieces(s.drop_last(), sep);
        if s.last() == sep {
            p.push(Seq::<char>::empty())
        } else {
            p.update(p.len() - 1, p.last().push(s.last()))
        }
    }
}

/// The predicate "this piece is not empty".
pub open spec fn nonempty_pred() -> spec_fn(Seq<char>) -> bool {
    |p: Seq<char>| p.len() > 0
}

/// The non-empty pieces of `s` between occurrences of `sep`
/// (`s.split(sep).filter(|p| !p.is_empty())`).
pub open spec fn nonempty_pieces(s: Seq<char>, sep: char) -> Seq<Seq<char>> {
    split_pieces(s, sep).filter(nonempty_pred())
}

/// The character sequences held by a sequence of character vectors.
pub open spec fn views_of(v: Seq<Vec<char>>) -> Seq<Seq<char>> {
    Seq::new(v.len(), |i: int| v[i]@)
}

pub proof fn lemma_split_pieces_len(s: Seq<char>, sep: char)
    ensures
        split_pieces(s, sep).len() >= 1,
    decreases s.len(),
{
    if s.len() > 0 {
        lemma_split_pieces_len(s.drop_last(), sep);
    }
}

/// The non-empty pieces of `s` between occurrences of `sep`.
pub fn split_nonempty(s: &Vec<char>, sep: char) -> (r: Vec<Vec<char>>)
    ensures
        views_of(r@) == nonempty_pieces(s@, sep),
{
    broadcast use Seq::lemma_filter_push;

    let mut out: Vec<Vec<char>> = Vec::new();
    let mut cur: Vec<char> = Vec::new();
    let mut i: usize = 0;
    proof {
        reveal_with_fuel(Seq::filter, 1);
        assert(s@.take(0) =~= Seq::<char>::empty());
        assert(views_of(out@) =~= seq![Seq::<char>::empty()].drop_last().filter(nonempty_pred()));
    }
    while i < s.len()
        invariant
            i <= s.len(),
            split_pieces(s@.take(i as int), sep).len() >= 1,
            views_of(out@) == split_pieces(s@.take(i as int), sep).drop_last().filter(
                nonempty_pred(),
            ),
            cur@ == split_pieces(s@.take(i as int), sep).last(),
        decreases s.len() - i,
    {
        let ghost p = split_pieces(s@.take(i as int), sep);
        let c = s[i];
        proof {
            assert(s@.take(i + 1).drop_last() =~= s@.take(i as int));
            assert(s@.take(i + 1).last() == c);
            lemma_split_pieces_len(s@.take(i + 1), sep);
            assert(p == p.drop_last().push(p.last()));
        }
        if c == sep {
            if cur.len() > 0 {
                let ghost before = out@;
                out.push(cur);
                assert(views_of(out@) =~= views_of(before).push(p.last()));
            }
            cur = Vec::new();
            proof {
                let q = split_pieces(s@.take(i + 1), sep);
                assert(q == p.push(Seq::<char>::empty()));
                assert(q.drop_last() =~= p);
                p.drop_last().lemma_filter_push(p.last(), nonempty_pred());
                assert(q.drop_last().filter(nonempty_pred()) == p.filter(nonempty_pred()));
            }
        } else {
            cur.push(c);
            proof {
                let q = split_pieces(s@.take(i + 1), sep);
                assert(q.drop_last() =~= p.drop_last());
            }
        }
        i = i + 1;
    }
    proof {
        assert(s@.take(s.len() as int) =~= s@);
        let p = split_pieces(s@, sep);
        assert(p == p.drop_last().push(p.last()));
        p.drop_last().lemma_filter_push(p.last(), nonempty_pred());
    }
    if cur.len() > 0 {
        let ghost before = out@;
        out.push(cur);
        assert(views_of(out@) =~= views_of(before).push(cur@));
    }
    out
}

} // verus!

verus! {

/// Whether two character vectors hold the same characters.
pub fn chars_eq(a: &Vec<char>, b: &Vec<char>) -> (r: bool)
    ensures
        r == (a@ == b@),
{
    if a.len() != b.len() {
        return false;
    }
    let mut i: usize = 0;
    while i < a.len()
        invariant
            a.len() == b.len(),
            i <= a.len(),
            forall|k: int| 0 <= k < i ==> a@[k] == b@[k],
        decreases a.len() - i,
    {
        if a[i] != b[i] {
            return false;
        }
        i = i + 1;
    }
    assert(a@ =~= b@);
    true
}

/// Whether the string equals the given characters.
pub fn str_eq_chars(s: &str, b: &Vec<char>) -> (r: bool)
    ensures
        r == (s@ == b@),
{
    let a = chars_of(s);
    chars_eq(&a, b)
}

/// The index of the last occurrence of `c` in `s`, or -1.
pub open spec fn last_index_of(s: Seq<char>, c: char) -> int
    decreases s.len(),
{
    if s.len() == 0 {
        -1
    } else if s.last() == c {
        s.len() - 1
    } else {
        last_index_of(s.drop_last(), c)
    }
}

pub proof fn lemma_last_index_of(s: Seq<char>, c: char)
    ensures
        -1 <= last_index_of(s, c) < s.len(),
        last_index_of(s, c) >= 0 ==> s[last_index_of(s, c)] == c,
        forall|j: int| last_index_of(s, c) < j < s.len() ==> s[j] != c,
    decreases s.len(),
{
    if s.len() > 0 {
        lemma_last_index_of(s.drop_last(), c);
        assert forall|j: int| last_index_of(s, c) < j < s.len() implies s[j] != c by {
            if s.last() != c && j < s.len() - 1 {
                assert(s[j] == s.drop_last()[j]);
            }
        }
    }
}

/// The index of the first `c` in `s`, or -1.
pub open spec fn first_index_of(s: Seq<char>, c: char) -> int
    decreases s.len(),
{
    if s.len() == 0 {
        -1
    } else if s[0] == c {
        0
    } else if first_index_of(s.skip(1), c) < 0 {
        -1
    } else {
        first_index_of(s.skip(1), c) + 1
    }
}

/// The first index of `c` is the `i` before which no `c` occurs.
pub proof fn lemma_first_index_of(s: Seq<char>, c: char, i: int)
    requires
        0 <= i <= s.len(),
        forall|j: int| 0 <= j < i ==> s[j] != c,
        i < s.len() ==> s[i] == c,
    ensures
        first_index_of(s, c) == if i < s.len() {
            i
        } else {
            -1
        },
    decreases i,
{
    if i > 0 {
        lemma_first_index_of(s.skip(1), c, i - 1);
    }
}

/// The index of the first `c` in `s` (`str::find` of a character).
pub fn find_char(s: &Vec<char>, c: char) -> (r: Option<usize>)
    ensures
        match r {
            Some(i) => i < s@.len() && i as int == first_index_of(s@, c),
            None => first_index_of(s@, c) == -1,
        },
{
    let mut i: usize = 0;
    while i < s.len()
        invariant
            i <= s.len(),
            forall|j: int| 0 <= j < i ==> s@[j] != c,
        decreases s.len() - i,
    {
        if s[i] == c {
            proof {
                lemma_first_index_of(s@, c, i as int);
            }
            return Some(i);
        }
        i = i + 1;
    }
    proof {
        lemma_first_index_of(s@, c, i as int);
    }
    None
}

/// The index of the last occurrence of `c` in `s` (`rfind`).
pub fn rfind_char(s: &Vec<char>, c: char) -> (r: Option<usize>)
    ensures
        match r {
            Some(i) => i < s@.len() && i as int == last_index_of(s@, c),
            None => last_index_of(s@, c) == -1,
        },
{
    let mut i = s.len();
    proof {
        lemma_last_index_of(s@, c);
    }
    while i > 0
        invariant
            i <= s.len(),
            last_index_of(s@, c) < i as int,
            -1 <= last_index_of(s@, c) < s.len(),
            forall|j: int| last_index_of(s@, c) < j < s.len() ==> s@[j] != c,
            last_index_of(s@, c) >= 0 ==> s@[last_index_of(s@, c)] == c,
        decreases i,
    {
        if s[i - 1] == c {
            return Some(i - 1);
        }
        i = i - 1;
    }
    None
}

} // verus!

verus! {

/// The character sequences held by a sequence of strings.
pub open spec fn string_views(v: Seq<String>) -> Seq<Seq<char>> {
    Seq::new(v.len(), |i: int| v[i]@)
}

} // verus!

verus! {

/// The lowercase hexadecimal digit for `d` (`d < 16`).
pub open spec fn hex_digit(d: nat) -> char {
    if d < 10 {
        (48 + d) as char
    } else {
        (87 + d) as char
    }
}

/// Lowercase hexadecimal notation without leading zeros (`{:x}`).
pub open spec fn nat_hex(n: nat) -> Seq<char>
    decreases n,
{
    if n < 16 {
        seq![hex_digit(n)]
    } else {
        nat_hex(n / 16).push(hex_digit(n % 16))
    }
}

/// Appends the lowercase hexadecimal notation of `n`.
pub fn push_hex(out: &mut Vec<char>, n: u128)
    ensures
        final(out)@ == old(out)@ + nat_hex(n as nat),
    decreases n,
{
    if n >= 16 {
        push_hex(out, n / 16);
    }
    let d = (n % 16) as u8;
    let c = if d < 10 {
        (48u8 + d) as char
    } else {
        (87u8 + d) as char
    };
    out.push(c);
    assert(c == hex_digit((n % 16) as nat));
}

} // verus!

verus! {

/// Whether `c` has the Unicode `White_Space` property (what
/// `char::is_whitespace` tests).
pub open spec fn is_space(c: char) -> bool {
    let u = c as u32;
    (0x9 <= u && u <= 0xD) || u == 0x20 || u == 0x85 || u == 0xA0 || u == 0x1680 || (0x2000 <= u
        && u <= 0x200A) || u == 0x2028 || u == 0x2029 || u == 0x202F || u == 0x205F || u == 0x3000
}

/// Whether `c` is whitespace (executable).
pub fn char_is_space(c: char) -> (b: bool)
    ensures
        b == is_space(c),
{
    let u = c as u32;
    (0x9 <= u && u <= 0xD) || u == 0x20 || u == 0x85 || u == 0xA0 || u == 0x1680 || (0x2000 <= u
        && u <= 0x200A) || u == 0x2028 || u == 0x2029 || u == 0x202F || u == 0x205F || u == 0x3000
}

/// The number of leading whitespace characters.
pub open spec fn leading_space(s: Seq<char>) -> nat
    decreases s.len(),
{
    if s.len() > 0 && is_space(s[0]) {
        1 + leading_space(s.skip(1))
    } else {
        0
    }
}

/// The number of trailing whitespace characters.
pub open spec fn trailing_space(s: Seq<char>) -> nat
    decreases s.len(),
{
    if s.len() > 0 && is_space(s.last()) {
        1 + trailing_space(s.drop_last())
    } else {
        0
    }
}

/// `s` without leading whitespace (`trim_start`).
pub open spec fn trim_start_spec(s: Seq<char>) -> Seq<char> {
    s.skip(leading_space(s) as int)
}

/// `s` without trailing whitespace (`trim_end`).
pub open spec fn trim_end_spec(s: Seq<char>) -> Seq<char> {
    s.take(s.len() - trailing_space(s))
}

/// `s` without leading and trailing whitespace (`trim`).
pub open spec fn trim_spec(s: Seq<char>) -> Seq<char> {
    trim_end_spec(trim_start_spec(s))
}

pub proof fn lemma_leading_space(s: Seq<char>, i: int)
    requires
        0 <= i <= s.len(),
        forall|j: int| 0 <= j < i ==> is_space(s[j]),
        i == s.len() || !is_space(s[i]),
    ensures
        leading_space(s) == i,
    decreases i,
{
    if i > 0 {
        lemma_leading_space(s.skip(1), i - 1);
    }
}

pub proof fn lemma_trailing_space(s: Seq<char>, i: int)
    requires
        0 <= i <= s.len(),
        forall|j: int| s.len() - i <= j < s.len() ==> is_space(s[j]),
        i == s.len() || !is_space(s[s.len() - 1 - i]),
    ensures
        trailing_space(s) == i,
    decreases i,
{
    if i > 0 {
        lemma_trailing_space(s.drop_last(), i - 1);
    }
}

/// `s` without leading whitespace.
pub fn trim_start_chars(s: &Vec<char>) -> (r: Vec<char>)
    ensures
        r@ == trim_start_spec(s@),
{
    let mut i: usize = 0;
    while i < s.len() && char_is_space(s[i])
        invariant
            i <= s.len(),
            forall|j: int| 0 <= j < i ==> is_space(s@[j]),
        decreases s.len() - i,
    {
        i = i + 1;
    }
    proof {
        lemma_leading_space(s@, i as int);
    }
    slice(s, i, s.len())
}

/// `s` without trailing whitespace.
pub fn trim_end_chars(s: &Vec<char>) -> (r: Vec<char>)
    ensures
        r@ == trim_end_spec(s@),
{
    let mut i: usize = 0;
    while i < s.len() && char_is_space(s[s.len() - 1 - i])
        invariant
            i <= s.len(),
            forall|j: int| s.len() - i <= j < s.len() ==> is_space(s@[j]),
        decreases s.len() - i,
    {
        i = i + 1;
    }
    proof {
        lemma_trailing_space(s@, i as int);
    }
    slice(s, 0, s.len() - i)
}

/// `s` without leading and trailing whitespace.
pub fn trim_chars(s: &Vec<char>) -> (r: Vec<char>)
    ensures
        r@ == trim_spec(s@),
{
    let a = trim_start_chars(s);
    trim_end_chars(&a)
}

/// Every non-overlapping occurrence of `p` in `s`, scanning from the left,
/// replaced by `r` (`str::replace` with a non-empty pattern).
pub open spec fn replace_spec(s: Seq<char>, p: Seq<char>, r: Seq<char>) -> Seq<char>
    decreases s.len(),
{
    if p.len() == 0 || s.len() < p.len() {
        s
    } else if s.take(p.len() as int) == p {
        r + replace_spec(s.skip(p.len() as int), p, r)
    } else {
        seq![s[0]] + replace_spec(s.skip(1), p, r)
    }
}

/// Replaces every occurrence of `p` in `s` by `r`.
pub fn replace_all(s: &Vec<char>, p: &Vec<char>, r: &Vec<char>) -> (out: Vec<char>)
    requires
        p@.len() > 0,
    ensures
        out@ == replace_spec(s@, p@, r@),
{
    let mut out: Vec<char> = Vec::new();
    let mut i: usize = 0;
    assert(s@.skip(0) =~= s@);
    assert(out@ + replace_spec(s@, p@, r@) =~= replace_spec(s@, p@, r@));
    while i < s.len()
        invariant
            i <= s.len(),
            p@.len() > 0,
            out@ + replace_spec(s@.skip(i as int), p@, r@) == replace_spec(s@, p@, r@),
        decreases s.len() - i,
    {
        let ghost rest = s@.skip(i as int);
        if matches_at(s, p, i) {
            proof {
                assert(rest.take(p@.len() as int) =~= s@.subrange(i as int, i + p@.len()));
                assert(rest.skip(p@.len() as int) =~= s@.skip(i + p@.len()));
                assert(out@ + r@ + replace_spec(s@.skip(i + p@.len()), p@, r@) =~= out@ + (r@
                    + replace_spec(rest.skip(p@.len() as int), p@, r@)));
            }
            push_all(&mut out, r);
            i = i + p.len();
        } else {
            proof {
                if rest.len() >= p@.len() {
                    assert(rest.take(p@.len() as int) =~= s@.subrange(i as int, i + p@.len()));
                }
                assert(rest.skip(1) =~= s@.skip(i + 1));
                assert(rest[0] == s@[i as int]);
                if rest.len() < p@.len() {
                    assert(replace_spec(rest, p@, r@) == rest);
                    assert(replace_spec(rest.skip(1), p@, r@) == rest.skip(1));
                    assert(rest =~= seq![rest[0]] + rest.skip(1));
                }
                assert(out@.push(s@[i as int]) + replace_spec(s@.skip(i + 1), p@, r@) =~= out@
                    + (seq![rest[0]] + replace_spec(rest.skip(1), p@, r@)));
            }
            out.push(s[i]);
            i = i + 1;
        }
    }
    proof {
        assert(s@.skip(i as int) =~= Seq::<char>::empty());
        assert(out@ + Seq::<char>::empty() =~= out@);
    }
    out
}

} // verus!

verus! {

/// Whether `c` is an ASCII digit.
pub open spec fn is_digit(c: char) -> bool {
    '0' <= c && c <= '9'
}

/// The value of a string of ASCII digits.
pub open spec fn digits_value(d: Seq<char>) -> nat
    decreases d.len(),
{
    if d.len() == 0 {
        0
    } else {
        digits_value(d.drop_last()) * 10 + ((d.last() as u32) - 48) as nat
    }
}

/// Whether `d` is a non-empty string of ASCII digits.
pub open spec fn all_digits(d: Seq<char>) -> bool {
    d.len() > 0 && forall|i: int| 0 <= i < d.len() ==> is_digit(d[i])
}

/// The number that `s` denotes as an unsigned integer literal: an optional
/// `+` and then one or more ASCII digits.
pub open spec fn unsigned_value(s: Seq<char>) -> Option<nat> {
    let d = if s.len() > 0 && s[0] == '+' {
        s.skip(1)
    } else {
        s
    };
    if all_digits(d) {
        Some(digits_value(d))
    } else {
        None
    }
}

/// `usize::from_str`: the value of an unsigned literal that fits.
pub open spec fn parse_usize_spec(s: Seq<char>) -> Option<usize> {
    match unsigned_value(s) {
        Some(v) => if v <= usize::MAX {
            Some(v as usize)
        } else {
            None
        },
        None => None,
    }
}

pub proof fn lemma_digits_value_monotone(d: Seq<char>, i: int)
    requires
        0 <= i <= d.len(),
        all_digits(d) || d.len() == 0 || forall|j: int| 0 <= j < d.len() ==> is_digit(d[j]),
    ensures
        digits_value(d.take(i)) <= digits_value(d),
    decreases d.len() - i,
{
    if i < d.len() {
        lemma_digits_value_monotone(d, i + 1);
        assert(d.take(i + 1).drop_last() =~= d.take(i));
    } else {
        assert(d.take(i) =~= d);
    }
}

/// Parses an unsigned decimal literal into a `usize`.
pub fn parse_usize(s: &Vec<char>) -> (r: Option<usize>)
    ensures
        r == parse_usize_spec(s@),
{
    let start: usize = if s.len() > 0 && s[0] == '+' {
        1
    } else {
        0
    };
    let ghost d = if s@.len() > 0 && s@[0] == '+' {
        s@.skip(1)
    } else {
        s@
    };
    assert(d =~= s@.skip(start as int));
    if start >= s.len() {
        return None;
    }
    let mut acc: usize = 0;
    let mut i: usize = start;
    while i < s.len()
        invariant
            start <= i <= s.len(),
            d == s@.skip(start as int),
            d == (if s@.len() > 0 && s@[0] == '+' {
                s@.skip(1)
            } else {
                s@
            }),
            forall|j: int| start <= j < i ==> is_digit(s@[j]),
            acc as nat == digits_value(d.take(i - start)),
        decreases s.len() - i,
    {
        let c = s[i];
        if !('0' <= c && c <= '9') {
            assert(d[i - start] == s@[i as int]);
            assert(!is_digit(d[i - start]));
            assert(!all_digits(d));
            assert(unsigned_value(s@) is None);
            assert(parse_usize_spec(s@) is None);
            return None;
        }
        assert(d.take(i - start + 1).drop_last() =~= d.take(i - start));
        assert(d.take(i - start + 1).last() == c);
        let dv = (c as u32 - 48) as usize;
        match acc.checked_mul(10) {
            Some(m) => match m.checked_add(dv) {
                Some(n) => {
                    acc = n;
                },
                None => {
                    proof {
                        assert(digits_value(d.take(i - start + 1)) == acc * 10 + dv);
                        assert(digits_value(d.take(i - start + 1)) > usize::MAX);
                    }
                    if all_digits_from(s, i + 1) {
                        proof {
                            assert forall|j: int| 0 <= j < d.len() implies is_digit(d[j]) by {
                                assert(d[j] == s@[start + j]);
                            }
                            assert(all_digits(d));
                            lemma_digits_value_monotone(d, i - start + 1);
                        }
                    } else {
                        proof {
                            let j = choose|j: int| i + 1 <= j < s@.len() && !is_digit(s@[j]);
                            assert(d[j - start] == s@[j]);
                        }
                    }
                    return None;
                },
            },
            None => {
                proof {
                    assert(digits_value(d.take(i - start + 1)) == acc * 10 + dv);
                    assert(acc * 10 > usize::MAX);
                }
                if all_digits_from(s, i + 1) {
                    proof {
                        assert forall|j: int| 0 <= j < d.len() implies is_digit(d[j]) by {
                            assert(d[j] == s@[start + j]);
                        }
                        assert(all_digits(d));
                        lemma_digits_value_monotone(d, i - start + 1);
                    }
                } else {
                    proof {
                        let j = choose|j: int| i + 1 <= j < s@.len() && !is_digit(s@[j]);
                        assert(d[j - start] == s@[j]);
                    }
                }
                return None;
            },
        }
        i = i + 1;
    }
    assert(d.take(i - start) =~= d);
    Some(acc)
}

/// Whether every character of `s` from index `i` on is an ASCII digit.
fn all_digits_from(s: &Vec<char>, i: usize) -> (b: bool)
    ensures
        b == forall|j: int| i <= j < s@.len() ==> is_digit(s@[j]),
{
    let mut k = i;
    while k < s.len()
        invariant
            i <= k || k >= s.len(),
            forall|j: int| i <= j < k ==> is_digit(s@[j]),
        decreases s.len() - k,
    {
        if !('0' <= s[k] && s[k] <= '9') {
            return false;
        }
        k = k + 1;
    }
    true
}

} // verus!

verus! {

/// All the pieces of `s` between occurrences of `sep` (`str::split`).
pub fn split_all(s: &Vec<char>, sep: char) -> (r: Vec<Vec<char>>)
    ensures
        views_of(r@) == split_pieces(s@, sep),
{
    let mut out: Vec<Vec<char>> = Vec::new();
    let mut cur: Vec<char> = Vec::new();
    let mut i: usize = 0;
    proof {
        assert(s@.take(0) =~= Seq::<char>::empty());
        assert(views_of(out@) =~= seq![Seq::<char>::empty()].drop_last());
    }
    while i < s.len()
        invariant
            i <= s.len(),
            split_pieces(s@.take(i as int), sep).len() >= 1,
            views_of(out@) == split_pieces(s@.take(i as int), sep).drop_last(),
            cur@ == split_pieces(s@.take(i as int), sep).last(),
        decreases s.len() - i,
    {
        let ghost p = split_pieces(s@.take(i as int), sep);
        let c = s[i];
        proof {
            assert(s@.take(i + 1).drop_last() =~= s@.take(i as int));
            assert(s@.take(i + 1).last() == c);
            lemma_split_pieces_len(s@.take(i + 1), sep);
        }
        if c == sep {
            let ghost before = out@;
            out.push(cur);
            assert(views_of(out@) =~= views_of(before).push(p.last()));
            cur = Vec::new();
            proof {
                let q = split_pieces(s@.take(i + 1), sep);
                assert(q == p.push(Seq::<char>::empty()));
                assert(q.drop_last() =~= p);
                assert(p == p.drop_last().push(p.last()));
            }
        } else {
            cur.push(c);
            proof {
                let q = split_pieces(s@.take(i + 1), sep);
                assert(q.drop_last() =~= p.drop_last());
            }
        }
        i = i + 1;
    }
    proof {
        assert(s@.take(s.len() as int) =~= s@);
        let p = split_pieces(s@, sep);
        assert(p == p.drop_last().push(p.last()));
    }
    let ghost before = out@;
    out.push(cur);
    assert(views_of(out@) =~= views_of(before).push(cur@));
    out
}

/// The number of bytes of the UTF-8 encoding of `s`.
pub open spec fn utf8_len(s: Seq<char>) -> nat {
    vstd::utf8::encode_utf8(s).len()
}

/// `s` followed by `t` (both as strings).
pub fn concat_str(s: &str, t: &str) -> (r: String)
    ensures
        r@ == s@ + t@,
{
    let mut r = s.to_owned();
    r.append(t);
    r
}

} // verus!

verus! {

/// The pieces joined with `sep` between them.
pub open spec fn join_spec(pieces: Seq<Seq<char>>, sep: Seq<char>) -> Seq<char>
    decreases pieces.len(),
{
    if pieces.len() == 0 {
        Seq::empty()
    } else if pieces.len() == 1 {
        pieces[0]
    } else {
        join_spec(pieces.drop_last(), sep) + sep + pieces.last()
    }
}

/// Joins the pieces with `sep` between them.
pub fn join_chars(pieces: &Vec<Vec<char>>, sep: &Vec<char>) -> (r: Vec<char>)
    ensures
        r@ == join_spec(views_of(pieces@), sep@),
{
    let mut out: Vec<char> = Vec::new();
    let mut i: usize = 0;
    while i < pieces.len()
        invariant
            i <= pieces.len(),
            out@ == join_spec(views_of(pieces@).take(i as int), sep@),
        decreases pieces.len() - i,
    {
        let ghost t = views_of(pieces@).take(i + 1);
        assert(t.drop_last() =~= views_of(pieces@).take(i as int));
        assert(t.last() == pieces@[i as int]@);
        if i > 0 {
            push_all(&mut out, sep);
        } else {
            assert(views_of(pieces@).take(0) =~= Seq::<Seq<char>>::empty());
            assert(out@ =~= Seq::<char>::empty());
        }
        push_all(&mut out, &pieces[i]);
        i = i + 1;
    }
    assert(views_of(pieces@).take(i as int) =~= views_of(pieces@));
    out
}

/// Whether `c` is an ASCII letter or digit.
pub open spec fn ascii_alnum(c: char) -> bool {
    ('0' <= c && c <= '9') || ('a' <= c && c <= 'z') || ('A' <= c && c <= 'Z')
}

/// Whether every character is ASCII.
pub open spec fn all_ascii(s: Seq<char>) -> bool {
    forall|i: int| 0 <= i < s.len() ==> (s[i] as u32) < 128
}

/// ASCII lowercase of one character.
pub open spec fn ascii_lower_char(c: char) -> char {
    if 'A' <= c && c <= 'Z' {
        ((c as u32) + 32) as char
    } else {
        c
    }
}

/// ASCII uppercase of one character.
pub open spec fn ascii_upper_char(c: char) -> char {
    if 'a' <= c && c <= 'z' {
        ((c as u32) - 32) as char
    } else {
        c
    }
}

/// The Unicode lowercase mapping of a string (`str::to_lowercase`).
pub uninterp spec fn lowercase(s: Seq<char>) -> Seq<char>;

/// The Unicode uppercase mapping of a string (`str::to_uppercase`).
pub uninterp spec fn uppercase(s: Seq<char>) -> Seq<char>;

/// Whether a character is alphabetic or numeric in Unicode
/// (`char::is_alphanumeric`).
pub uninterp spec fn alphanumeric(c: char) -> bool;

/// Calls `str::to_lowercase`. The result is named; for ASCII text it is the
/// ASCII lowercase, as the documentation of the Unicode mapping shows.
#[verifier::external_body]
pub(crate) fn to_lower(s: &str) -> (r: String)
    ensures
        r@ == lowercase(s@),
        all_ascii(s@) ==> r@ == Seq::new(s@.len(), |i: int| ascii_lower_char(s@[i])),
{
    s.to_lowercase()
}

/// Calls `str::to_uppercase`. The result is named; for ASCII text it is the
/// ASCII uppercase.
#[verifier::external_body]
pub(crate) fn to_upper(s: &str) -> (r: String)
    ensures
        r@ == uppercase(s@),
        all_ascii(s@) ==> r@ == Seq::new(s@.len(), |i: int| ascii_upper_char(s@[i])),
{
    s.to_uppercase()
}

/// Calls `char::is_alphanumeric`. The result is named; for ASCII characters
/// it is exactly "letter or digit".
#[verifier::external_body]
pub(crate) fn is_alnum(c: char) -> (b: bool)
    ensures
        b == alphanumeric(c),
        (c as u32) < 128 ==> (b == ascii_alnum(c)),
{
    c.is_alphanumeric()
}

} // verus!

verus! {

/// Lexicographic order of strings by code point (the order of `String`'s
/// `Ord`, since UTF-8 preserves code-point order).
pub open spec fn lex_lt(a: Seq<char>, b: Seq<char>) -> bool
    decreases a.len(),
{
    if a.len() == 0 {
        b.len() > 0
    } else if b.len() == 0 {
        false
    } else if a[0] < b[0] {
        true
    } else if a[0] > b[0] {
        false
    } else {
        lex_lt(a.skip(1), b.skip(1))
    }
}

pub proof fn lemma_lex_irreflexive(a: Seq<char>)
    ensures
        !lex_lt(a, a),
    decreases a.len(),
{
    if a.len() > 0 {
        lemma_lex_irreflexive(a.skip(1));
    }
}

pub proof fn lemma_lex_total(a: Seq<char>, b: Seq<char>)
    ensures
        a != b ==> (lex_lt(a, b) || lex_lt(b, a)),
        !(lex_lt(a, b) && lex_lt(b, a)),
    decreases a.len(),
{
    if a.len() > 0 && b.len() > 0 {
        lemma_lex_total(a.skip(1), b.skip(1));
        if a != b && a[0] == b[0] {
            if a.skip(1) == b.skip(1) {
                assert(a =~= seq![a[0]] + a.skip(1));
                assert(b =~= seq![b[0]] + b.skip(1));
            }
        }
    } else if a.len() == 0 && b.len() == 0 {
        assert(a =~= b);
    }
}

pub proof fn lemma_lex_transitive(a: Seq<char>, b: Seq<char>, c: Seq<char>)
    requires
        lex_lt(a, b),
        lex_lt(b, c),
    ensures
        lex_lt(a, c),
    decreases a.len(),
{
    if a.len() > 0 && b.len() > 0 && c.len() > 0 {
        if a[0] == b[0] && b[0] == c[0] {
            lemma_lex_transitive(a.skip(1), b.skip(1), c.skip(1));
        }
    }
}

/// Whether `a` comes strictly before `b` (executable).
pub fn lex_less(a: &Vec<char>, b: &Vec<char>) -> (r: bool)
    ensures
        r == lex_lt(a@, b@),
{
    let mut i: usize = 0;
    assert(a@.skip(0) =~= a@);
    assert(b@.skip(0) =~= b@);
    while i < a.len() && i < b.len() && a[i] == b[i]
        invariant
            i <= a.len(),
            i <= b.len(),
            forall|j: int| 0 <= j < i ==> a@[j] == b@[j],
            lex_lt(a@, b@) == lex_lt(a@.skip(i as int), b@.skip(i as int)),
        decreases a.len() - i,
    {
        proof {
            let sa = a@.skip(i as int);
            let sb = b@.skip(i as int);
            assert(sa[0] == a@[i as int] && sb[0] == b@[i as int]);
            assert(sa.skip(1) =~= a@.skip(i + 1));
            assert(sb.skip(1) =~= b@.skip(i + 1));
        }
        i = i + 1;
    }
    let ghost sa = a@.skip(i as int);
    let ghost sb = b@.skip(i as int);
    if i == a.len() {
        return i < b.len();
    }
    if i == b.len() {
        return false;
    }
    assert(sa[0] == a@[i as int] && sb[0] == b@[i as int]);
    a[i] < b[i]
}

} // verus!
