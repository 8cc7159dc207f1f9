//! Character-level helpers shared by the other modules: conversions between
//! `str`, `String` and character vectors, ASCII case folding and decimal
//! rendering of integers.
use vstd::prelude::*;

verus! {

/// The characters of `s`, in order.
pub fn chars_of(s: &str) -> (out: Vec<char>)
    ensures
        out@ == s@,
{
    let mut out: Vec<char> = Vec::new();
    for c in it: s.chars()
        invariant
            out@ == it.seq().take(it.index() as int),
    {
        out.push(c);
    }
    out
}

/// Collects characters into a `String` (`FromIterator<&char>` for `String`).
#[verifier::external_body]
pub(crate) fn string_of(chars: &[char]) -> (out: String)
    ensures
        out@ == chars@,
{
    chars.iter().collect()
}

/// Whether `c` is an ASCII capital letter.
pub open spec fn is_upper(c: char) -> bool {
    'A' <= c && c <= 'Z'
}

/// ASCII lower case of one character; other characters are unchanged.
pub open spec fn lower_char(c: char) -> char {
    if is_upper(c) {
        ((c as u32) + 32) as char
    } else {
        c
    }
}

/// ASCII lower case of a character sequence (`str::to_ascii_lowercase`).
pub open spec fn lower(s: Seq<char>) -> Seq<char> {
    s.map_values(|c: char| lower_char(c))
}

pub fn to_lower_char(c: char) -> (out: char)
    ensures
        out == lower_char(c),
{
    if 'A' <= c && c <= 'Z' {
        let b: u8 = c as u8;
        (b + 32) as char
    } else {
        c
    }
}

/// The ASCII lower case of `s` (`str::to_ascii_lowercase`), as characters.
pub fn lower_chars(s: &str) -> (out: Vec<char>)
    ensures
        out@ == lower(s@),
{
    let mut out: Vec<char> = Vec::new();
    for c in it: s.chars()
        invariant
            out@ == lower(it.seq().take(it.index() as int)),
    {
        let ghost before = it.seq().take(it.index() as int);
        out.push(to_lower_char(c));
        assert(it.seq().take(it.index() + 1) =~= before.push(c));
        assert(lower(before.push(c)) =~= lower(before).push(lower_char(c)));
    }
    out
}

/// Whether the characters of `v` are exactly those of `s`.
pub fn chars_equal(v: &[char], s: &str) -> (out: bool)
    ensures
        out == (v@ == s@),
{
    let w = chars_of(s);
    if v.len() != w.len() {
        return false;
    }
    let mut i: usize = 0;
    while i < v.len()
        invariant
            v@.len() == w@.len(),
            w@ == s@,
            i <= v@.len(),
            forall|j: int| 0 <= j < i ==> v@[j] == w@[j],
        decreases v@.len() - i,
    {
        if v[i] != w[i] {
            return false;
        }
        i += 1;
    }
    assert(v@ =~= w@);
    true
}

/// The decimal digits of `n`, most significant first, without leading zeros
/// (`"0"` for zero).
pub open spec fn decimal(n: nat) -> Seq<char>
    decreases n,
{
    if n < 10 {
        seq![digit(n)]
    } else {
        decimal(n / 10).push(digit(n % 10))
    }
}

/// The ASCII digit of `d`, for `d < 10`.
pub open spec fn digit(d: nat) -> char {
    (('0' as u32) + d) as char
}

fn digit_char(d: u64) -> (c: char)
    requires
        d < 10,
    ensures
        c == digit(d as nat),
{
    let b: u8 = d as u8;
    (b + 48) as char
}

/// The decimal rendering of `n` (`u64`'s `Display`).
pub fn decimal_chars(n: u64) -> (out: Vec<char>)
    ensures
        out@ == decimal(n as nat),
    decreases n,
{
    if n < 10 {
        let mut v: Vec<char> = Vec::new();
        v.push(digit_char(n));
        v
    } else {
        let mut v = decimal_chars(n / 10);
        v.push(digit_char(n % 10));
        v
    }
}

fn digit_char_wide(d: u128) -> (c: char)
    requires
        d < 10,
    ensures
        c == digit(d as nat),
{
    let b: u8 = d as u8;
    (b + 48) as char
}

/// The decimal rendering of `n` (`u128`'s `Display`).
pub fn decimal_chars_wide(n: u128) -> (out: Vec<char>)
    ensures
        out@ == decimal(n as nat),
    decreases n,
{
    if n < 10 {
        let mut v: Vec<char> = Vec::new();
        v.push(digit_char_wide(n));
        v
    } else {
        let mut v = decimal_chars_wide(n / 10);
        v.push(digit_char_wide(n % 10));
        v
    }
}

/// The decimal rendering of a signed integer (`i64`'s `Display`).
pub open spec fn signed_decimal(n: int) -> Seq<char> {
    if n < 0 {
        seq!['-'].add(decimal((-n) as nat))
    } else {
        decimal(n as nat)
    }
}

pub fn signed_decimal_chars(n: i64) -> (out: Vec<char>)
    ensures
        out@ == signed_decimal(n as int),
{
    if n < 0 {
        let magnitude: u64 = if n == i64::MIN {
            9223372036854775808u64
        } else {
            (-n) as u64
        };
        let digits = decimal_chars(magnitude);
        let mut out: Vec<char> = Vec::new();
        out.push('-');
        let mut i: usize = 0;
        while i < digits.len()
            invariant
                i <= digits@.len(),
                out@ == seq!['-'].add(digits@.take(i as int)),
            decreases digits@.len() - i,
        {
            out.push(digits[i]);
            i += 1;
            assert(digits@.take(i as int) =~= digits@.take(i - 1).push(digits@[i - 1]));
        }
        assert(digits@.take(digits@.len() as int) =~= digits@);
        out
    } else {
        decimal_chars(n as u64)
    }
}

/// Appends every character of `tail` to `out`.
pub fn append_chars(out: &mut Vec<char>, tail: &[char])
    ensures
        final(out)@ == old(out)@ + tail@,
{
    let mut i: usize = 0;
    while i < tail.len()
        invariant
            i <= tail@.len(),
            out@ == old(out)@ + tail@.take(i as int),
        decreases tail@.len() - i,
    {
        out.push(tail[i]);
        i += 1;
        assert(tail@.take(i as int) =~= tail@.take(i - 1).push(tail@[i - 1]));
    }
    assert(tail@.take(tail@.len() as int) =~= tail@);
}

/// The position of the first entry of `s` with key `k`, or the length of
/// `s` when there is none.
pub open spec fn find_key<V>(s: Seq<(Seq<char>, V)>, k: Seq<char>) -> nat
    decreases s.len(),
{
    if s.len() == 0 {
        0
    } else if s[0].0 == k {
        0
    } else {
        1 + find_key(s.drop_first(), k)
    }
}

/// The value of the first entry of `s` with key `k`.
pub open spec fn assoc_get<V>(s: Seq<(Seq<char>, V)>, k: Seq<char>) -> Option<V> {
    let i = find_key(s, k);
    if i < s.len() {
        Some(s[i as int].1)
    } else {
        None
    }
}

/// `s` with the value of key `k` set to `v`: the first entry with that key
/// is replaced in place, or a new entry is appended.
pub open spec fn assoc_set<V>(s: Seq<(Seq<char>, V)>, k: Seq<char>, v: V) -> Seq<(Seq<char>, V)> {
    let i = find_key(s, k);
    if i < s.len() {
        s.update(i as int, (k, v))
    } else {
        s.push((k, v))
    }
}

/// The first entry with key `k` is at `i` when no entry before `i` has
/// that key and entry `i` has it (or `i` is the length).
pub proof fn lemma_find_key<V>(s: Seq<(Seq<char>, V)>, k: Seq<char>, i: int)
    requires
        0 <= i <= s.len(),
        forall|j: int| 0 <= j < i ==> (#[trigger] s[j]).0 != k,
        i == s.len() || s[i].0 == k,
    ensures
        find_key(s, k) == i,
    decreases i,
{
    if i > 0 {
        assert forall|j: int| 0 <= j < i - 1 implies (#[trigger] s.drop_first()[j]).0 != k by {
            assert(s.drop_first()[j] == s[j + 1]);
        }
        lemma_find_key(s.drop_first(), k, i - 1);
    }
}

/// The position of the first entry with key `k` is at most the length;
/// the entry there has key `k` and no entry before it does.
pub proof fn lemma_find_key_bound<V>(s: Seq<(Seq<char>, V)>, k: Seq<char>)
    ensures
        find_key(s, k) <= s.len(),
        find_key(s, k) < s.len() ==> s[find_key(s, k) as int].0 == k,
        forall|j: int| 0 <= j < find_key(s, k) ==> (#[trigger] s[j]).0 != k,
    decreases s.len(),
{
    if s.len() > 0 && s[0].0 != k {
        lemma_find_key_bound(s.drop_first(), k);
        assert forall|j: int| 0 <= j < find_key(s, k) implies (#[trigger] s[j]).0 != k by {
            if j > 0 {
                assert(s[j] == s.drop_first()[j - 1]);
            }
        }
    }
}

/// No two entries of `s` have the same key.
pub open spec fn keys_distinct<V>(s: Seq<(Seq<char>, V)>) -> bool {
    forall|i: int, j: int| #![trigger s[i], s[j]] 0 <= i < j < s.len() ==> s[i].0 != s[j].0
}

/// Setting a key keeps the keys distinct: an existing key is updated in
/// place and a new one is appended.
pub proof fn lemma_assoc_set_distinct<V>(s: Seq<(Seq<char>, V)>, k: Seq<char>, v: V)
    requires
        keys_distinct(s),
    ensures
        keys_distinct(assoc_set(s, k, v)),
{
    lemma_find_key_bound(s, k);
    let t = assoc_set(s, k, v);
    assert forall|i: int, j: int| 0 <= i < j < t.len() implies #[trigger] t[i].0 != #[trigger] t[j].0 by {
        if find_key(s, k) < s.len() {
            assert(t[i].0 == s[i].0 && t[j].0 == s[j].0);
        } else if j == s.len() {
            assert(s[i].0 != k);
        } else {
            assert(t[i] == s[i] && t[j] == s[j]);
        }
    }
}

/// Setting a key changes what that key reads and nothing else.
pub proof fn lemma_assoc_set_get<V>(s: Seq<(Seq<char>, V)>, k: Seq<char>, v: V, k2: Seq<char>)
    ensures
        assoc_get(assoc_set(s, k, v), k2) == if k2 == k {
            Some(v)
        } else {
            assoc_get(s, k2)
        },
    decreases s.len(),
{
    lemma_find_key_bound(s, k);
    lemma_find_key_bound(s, k2);
    let t = assoc_set(s, k, v);
    lemma_find_key_bound(t, k2);
    let i = find_key(s, k);
    let j = find_key(s, k2);
    if k2 == k {
        if i < s.len() {
            assert forall|m: int| 0 <= m < i implies (#[trigger] t[m]).0 != k2 by {}
            lemma_find_key(t, k2, i as int);
        } else {
            assert forall|m: int| 0 <= m < s.len() implies (#[trigger] t[m]).0 != k2 by {}
            lemma_find_key(t, k2, s.len() as int);
        }
    } else {
        if j < s.len() {
            assert forall|m: int| 0 <= m < j implies (#[trigger] t[m]).0 != k2 by {
                if i < s.len() && m == i {
                } else {
                    assert(t[m] == s[m]);
                }
            }
            assert(t[j as int].0 == k2) by {
                if i < s.len() && j == i {
                } else {
                    assert(t[j as int] == s[j as int]);
                }
            }
            lemma_find_key(t, k2, j as int);
        } else {
            assert forall|m: int| 0 <= m < t.len() implies (#[trigger] t[m]).0 != k2 by {
                if m < s.len() {
                    if !(i < s.len() && m == i) {
                        assert(t[m] == s[m]);
                    }
                }
            }
            lemma_find_key(t, k2, t.len() as int);
        }
    }
}

} // verus!
