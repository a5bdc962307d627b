//! Character-level helpers shared by the text-producing modules.

use vstd::prelude::*;
use vstd::string::StringExecFns;

verus! {

broadcast use vstd::string::group_string_axioms;

/// `String::push` appends one character to the string.
pub assume_specification[ String::push ](string: &mut String, ch: char)
    ensures
        final(string)@ == old(string)@.push(ch),
;

/// The characters of a string slice, in order.
pub fn chars_of(s: &str) -> (v: Vec<char>)
    ensures
        v@ == s@,
{
    let mut v: Vec<char> = Vec::new();
    for c in it: s.chars()
        invariant
            v@ == it.seq().take(it.index() as int),
    {
        v.push(c);
    }
    v
}


/// A string holding the given characters, in order.
pub fn string_of(v: &Vec<char>) -> (s: String)
    ensures
        s@ == v@,
{
    let mut s = String::new();
    let mut i: usize = 0;
    while i < v.len()
        invariant
            i <= v.len(),
            s@ == v@.take(i as int),
        decreases v.len() - i,
    {
        s.push(v[i]);
        i = i + 1;
        assert(v@.take(i as int) =~= v@.take(i - 1).push(v@[i - 1]));
    }
    assert(v@.take(v.len() as int) =~= v@);
    s
}

/// Append the characters `src[from..to]` to `out`.
pub fn extend_range(out: &mut Vec<char>, src: &Vec<char>, from: usize, to: usize)
    requires
        from <= to <= src.len(),
    ensures
        final(out)@ == old(out)@ + src@.subrange(from as int, to as int),
{
    let mut i = from;
    while i < to
        invariant
            from <= i <= to <= src.len(),
            out@ == old(out)@ + src@.subrange(from as int, i as int),
        decreases to - i,
    {
        out.push(src[i]);
        i = i + 1;
        assert(src@.subrange(from as int, i as int) =~= src@.subrange(from as int, i - 1).push(
            src@[i - 1],
        ));
    }
}

/// Append all characters of `src` to `out`.
pub fn extend_all(out: &mut Vec<char>, src: &Vec<char>)
    ensures
        final(out)@ == old(out)@ + src@,
{
    extend_range(out, src, 0, src.len());
    assert(src@.subrange(0, src.len() as int) =~= src@);
}

/// `p` is a prefix of `s`.
pub open spec fn starts_with(s: Seq<char>, p: Seq<char>) -> bool {
    p.len() <= s.len() && s.subrange(0, p.len() as int) == p
}

/// `p` occurs in `h` starting at index `i`.
pub open spec fn occurs_at(h: Seq<char>, p: Seq<char>, i: int) -> bool {
    0 <= i && i + p.len() <= h.len() && h.subrange(i, i + p.len()) == p
}

/// First index at or after `i` where `p` occurs in `h`.
pub open spec fn first_occ_from(h: Seq<char>, p: Seq<char>, i: int) -> Option<int>
    decreases h.len() + 1 - i,
{
    if i < 0 || i + p.len() > h.len() {
        None
    } else if occurs_at(h, p, i) {
        Some(i)
    } else {
        first_occ_from(h, p, i + 1)
    }
}

/// First index where `p` occurs in `h` (what `str::find` gives, counted
/// in characters rather than bytes).
pub open spec fn first_occ(h: Seq<char>, p: Seq<char>) -> Option<int> {
    first_occ_from(h, p, 0)
}

/// `first_occ_from` is the least occurrence index at or after `i`.
pub proof fn lemma_first_occ_from(h: Seq<char>, p: Seq<char>, i: int)
    requires
        0 <= i,
    ensures
        first_occ_from(h, p, i) matches Some(k) ==> {
            &&& i <= k
            &&& occurs_at(h, p, k)
            &&& forall|j: int| i <= j < k ==> !occurs_at(h, p, j)
        },
        first_occ_from(h, p, i) is None ==> forall|j: int| i <= j ==> !occurs_at(h, p, j),
    decreases h.len() + 1 - i,
{
    if i + p.len() > h.len() {
    } else if occurs_at(h, p, i) {
    } else {
        lemma_first_occ_from(h, p, i + 1);
    }
}

/// `first_occ` is the least occurrence index of `p` in `h`.
pub proof fn lemma_first_occ(h: Seq<char>, p: Seq<char>)
    ensures
        first_occ(h, p) matches Some(k) ==> {
            &&& occurs_at(h, p, k)
            &&& forall|j: int| 0 <= j < k ==> !occurs_at(h, p, j)
        },
        first_occ(h, p) is None ==> forall|j: int| 0 <= j ==> !occurs_at(h, p, j),
{
    lemma_first_occ_from(h, p, 0);
}

/// A least occurrence is the first occurrence.
pub proof fn lemma_first_occ_is(h: Seq<char>, p: Seq<char>, k: int)
    requires
        occurs_at(h, p, k),
        forall|j: int| 0 <= j < k ==> !occurs_at(h, p, j),
    ensures
        first_occ(h, p) == Some(k),
{
    lemma_first_occ(h, p);
    match first_occ(h, p) {
        Some(k2) => {
            if k2 < k {
            } else if k < k2 {
            }
        },
        None => {},
    }
}

/// A pattern that occurs nowhere has no first occurrence.
pub proof fn lemma_first_occ_none(h: Seq<char>, p: Seq<char>)
    requires
        forall|j: int| 0 <= j ==> !occurs_at(h, p, j),
    ensures
        first_occ(h, p) is None,
{
    lemma_first_occ(h, p);
}

/// `p` occurs in `h` at `i`, checked character by character.
pub fn occurs_at_exec(h: &Vec<char>, p: &Vec<char>, i: usize) -> (b: bool)
    ensures
        b == occurs_at(h@, p@, i as int),
{
    if i > h.len() || p.len() > h.len() - i {
        return false;
    }
    let mut k: usize = 0;
    while k < p.len()
        invariant
            i + p.len() <= h.len(),
            k <= p.len(),
            forall|j: int| 0 <= j < k ==> h@[i + j] == p@[j],
        decreases p.len() - k,
    {
        if h[i + k] != p[k] {
            assert(h@.subrange(i as int, i + p.len())[k as int] != p@[k as int]);
            return false;
        }
        k = k + 1;
    }
    assert(h@.subrange(i as int, i + p.len()) =~= p@);
    true
}

/// Index of the first occurrence of `p` in `h`.
pub fn find_chars(h: &Vec<char>, p: &Vec<char>) -> (r: Option<usize>)
    ensures
        r matches Some(k) ==> first_occ(h@, p@) == Some(k as int),
        r is None ==> first_occ(h@, p@) is None,
{
    let mut i: usize = 0;
    proof {
        lemma_first_occ(h@, p@);
    }
    while p.len() <= h.len() - i
        invariant
            i <= h.len(),
            forall|j: int| 0 <= j < i ==> !occurs_at(h@, p@, j),
        decreases h.len() - i,
    {
        if occurs_at_exec(h, p, i) {
            proof {
                lemma_first_occ_is(h@, p@, i as int);
            }
            return Some(i);
        }
        if p.len() == 0 {
            assert(h@.subrange(i as int, i as int) =~= p@);
        }
        i = i + 1;
    }
    proof {
        lemma_first_occ_none(h@, p@);
    }
    None
}


/// The decimal digit character of `d` (0..=9).
pub open spec fn digit_char(d: int) -> char {
    if d == 0 {
        '0'
    } else if d == 1 {
        '1'
    } else if d == 2 {
        '2'
    } else if d == 3 {
        '3'
    } else if d == 4 {
        '4'
    } else if d == 5 {
        '5'
    } else if d == 6 {
        '6'
    } else if d == 7 {
        '7'
    } else if d == 8 {
        '8'
    } else {
        '9'
    }
}

/// Decimal notation of `n`, without sign or leading zeros.
pub open spec fn decimal(n: nat) -> Seq<char>
    decreases n,
{
    if n < 10 {
        seq![digit_char(n as int)]
    } else {
        decimal(n / 10) + seq![digit_char((n % 10) as int)]
    }
}

fn digit_exec(d: usize) -> (c: char)
    requires
        d < 10,
    ensures
        c == digit_char(d as int),
{
    match d {
        0 => '0',
        1 => '1',
        2 => '2',
        3 => '3',
        4 => '4',
        5 => '5',
        6 => '6',
        7 => '7',
        8 => '8',
        _ => '9',
    }
}

/// Decimal notation of `n` as characters.
pub fn decimal_chars(n: usize) -> (v: Vec<char>)
    ensures
        v@ == decimal(n as nat),
    decreases n,
{
    if n < 10 {
        let mut v: Vec<char> = Vec::new();
        v.push(digit_exec(n));
        assert(v@ =~= seq![digit_char(n as int)]);
        v
    } else {
        let mut v = decimal_chars(n / 10);
        v.push(digit_exec(n % 10));
        v
    }
}

/// Decimal notation of `n`, as `n.to_string()` writes it.
pub fn decimal_string(n: usize) -> (s: String)
    ensures
        s@ == decimal(n as nat),
{
    string_of(&decimal_chars(n))
}

/// The texts of `parts` one after the other.
pub open spec fn concat_all(parts: Seq<Seq<char>>) -> Seq<char>
    decreases parts.len(),
{
    if parts.len() == 0 {
        Seq::empty()
    } else {
        concat_all(parts.drop_last()) + parts.last()
    }
}

/// The views of a list of strings.
pub open spec fn string_views(parts: Seq<String>) -> Seq<Seq<char>> {
    parts.map_values(|p: String| p@)
}

/// Two character vectors are equal.
pub fn chars_eq(a: &Vec<char>, b: &Vec<char>) -> (r: bool)
    ensures
        r == (a@ == b@),
{
    if a.len() != b.len() {
        return false;
    }
    let mut i: usize = 0;
    while i < a.len()
        invariant
            a.len() == b.len(),
            i <= a.len(),
            forall|k: int| 0 <= k < i ==> a@[k] == b@[k],
        decreases a.len() - i,
    {
        if a[i] != b[i] {
            return false;
        }
        i = i + 1;
    }
    assert(a@ =~= b@);
    true
}

/// Two string slices hold the same characters.
pub fn str_eq(a: &str, b: &str) -> (r: bool)
    ensures
        r == (a@ == b@),
{
    let ca = chars_of(a);
    let cb = chars_of(b);
    chars_eq(&ca, &cb)
}

/// Lexicographic order on character sequences, characters compared by
/// code point.  On strings this is the order of `str`'s `Ord` (byte-wise
/// order of UTF-8, which follows code-point order).
pub open spec fn lex_le(a: Seq<char>, b: Seq<char>) -> bool
    decreases a.len(),
{
    if a.len() == 0 {
        true
    } else if b.len() == 0 {
        false
    } else if a[0] != b[0] {
        (a[0] as u32) < (b[0] as u32)
    } else {
        lex_le(a.drop_first(), b.drop_first())
    }
}

/// Strict lexicographic order.
pub open spec fn lex_lt(a: Seq<char>, b: Seq<char>) -> bool {
    lex_le(a, b) && a != b
}

/// `lex_le` is a total order.
pub proof fn lemma_lex_total(a: Seq<char>, b: Seq<char>)
    ensures
        lex_le(a, b) || lex_le(b, a),
        lex_le(a, b) && lex_le(b, a) ==> a == b,
        lex_le(a, a),
    decreases a.len(),
{
    if a.len() > 0 && b.len() > 0 && a[0] != b[0] {
        vstd::utf8::char_u32_cast(a[0], a[0] as u32);
        vstd::utf8::char_u32_cast(b[0], b[0] as u32);
    }
    if a.len() > 0 && b.len() > 0 && a[0] == b[0] {
        lemma_lex_total(a.drop_first(), b.drop_first());
        if lex_le(a, b) && lex_le(b, a) {
            assert(a =~= seq![a[0]] + a.drop_first());
            assert(b =~= seq![b[0]] + b.drop_first());
        }
    }
    if a.len() > 0 {
        lemma_lex_total(a.drop_first(), a.drop_first());
    }
    if a.len() == 0 && b.len() == 0 {
        assert(a =~= b);
    }
}

/// `lex_le` is transitive.
pub proof fn lemma_lex_trans(a: Seq<char>, b: Seq<char>, c: Seq<char>)
    requires
        lex_le(a, b),
        lex_le(b, c),
    ensures
        lex_le(a, c),
    decreases a.len(),
{
    if a.len() > 0 && b.len() > 0 && c.len() > 0 && a[0] == b[0] && b[0] == c[0] {
        lemma_lex_trans(a.drop_first(), b.drop_first(), c.drop_first());
    }
}

/// `a` comes before or equals `b` in lexicographic order.
pub fn lex_le_exec(a: &Vec<char>, b: &Vec<char>) -> (r: bool)
    ensures
        r == lex_le(a@, b@),
{
    let mut i: usize = 0;
    assert(a@.subrange(0, a.len() as int) =~= a@);
    assert(b@.subrange(0, b.len() as int) =~= b@);
    while i < a.len() && i < b.len() && a[i] == b[i]
        invariant
            i <= a.len(),
            i <= b.len(),
            lex_le(a@, b@) == lex_le(a@.subrange(i as int, a.len() as int), b@.subrange(
                i as int,
                b.len() as int,
            )),
        decreases a.len() - i,
    {
        proof {
            let sa = a@.subrange(i as int, a.len() as int);
            let sb = b@.subrange(i as int, b.len() as int);
            assert(sa.drop_first() =~= a@.subrange(i + 1, a.len() as int));
            assert(sb.drop_first() =~= b@.subrange(i + 1, b.len() as int));
        }
        i = i + 1;
    }
    let ghost sa = a@.subrange(i as int, a.len() as int);
    let ghost sb = b@.subrange(i as int, b.len() as int);
    if i == a.len() {
        true
    } else if i == b.len() {
        false
    } else {
        assert(sa[0] == a@[i as int] && sb[0] == b@[i as int]);
        (a[i] as u32) < (b[i] as u32)
    }
}


/// The views of `names` are in lexicographic order.
pub open spec fn sorted_names(names: Seq<Seq<char>>) -> bool {
    forall|i: int, j: int| 0 <= i < j < names.len() ==> lex_le(#[trigger] names[i], #[trigger] names[j])
}

/// Sort strings in lexicographic order (a stable insertion sort, the
/// order `Vec<String>::sort` gives).
pub fn sort_names(names: &Vec<String>) -> (sorted: Vec<String>)
    ensures
        sorted_names(string_views(sorted@)),
        string_views(sorted@).to_multiset() == string_views(names@).to_multiset(),
{
    let mut out: Vec<String> = Vec::new();
    let mut i: usize = 0;
    assert(string_views(out@) =~= string_views(names@).take(0));
    while i < names.len()
        invariant
            i <= names.len(),
            sorted_names(string_views(out@)),
            string_views(out@).to_multiset() == string_views(names@).take(i as int).to_multiset(),
        decreases names.len() - i,
    {
        let name = names[i].clone();
        let key = chars_of(name.as_str());
        let ghost v = string_views(out@);
        let mut k: usize = 0;
        while k < out.len() && lex_le_exec(&chars_of(out[k].as_str()), &key)
            invariant
                k <= out.len(),
                v == string_views(out@),
                key@ == name@,
                forall|j: int| 0 <= j < k ==> lex_le(#[trigger] v[j], key@),
            decreases out.len() - k,
        {
            k = k + 1;
        }
        proof {
            if k < out.len() {
                lemma_lex_total(v[k as int], key@);
            }
        }
        out.insert(k, name);
        proof {
            let w = string_views(out@);
            assert(w =~= v.insert(k as int, key@));
            assert forall|a: int, b: int| 0 <= a < b < w.len() implies lex_le(#[trigger] w[a], #[trigger] w[b]) by {
                if b < k {
                    assert(w[a] == v[a] && w[b] == v[b]);
                } else if b == k {
                    assert(w[a] == v[a]);
                } else if a < k {
                    assert(w[a] == v[a] && w[b] == v[b - 1]);
                    assert(lex_le(key@, v[k as int]));
                    if b - 1 > k {
                        lemma_lex_trans(key@, v[k as int], v[b - 1]);
                    }
                    lemma_lex_trans(v[a], key@, v[b - 1]);
                } else if a == k {
                    assert(w[b] == v[b - 1]);
                    if b - 1 > k {
                        lemma_lex_trans(key@, v[k as int], v[b - 1]);
                    }
                } else {
                    assert(w[a] == v[a - 1] && w[b] == v[b - 1]);
                }
            }
            assert(string_views(names@).take(i + 1) =~= string_views(names@).take(i as int).push(
                key@,
            ));
            vstd::seq_lib::to_multiset_insert(v, k as int, key@);
            vstd::seq_lib::to_multiset_build(string_views(names@).take(i as int), key@);
        }
        i = i + 1;
    }
    assert(string_views(names@).take(names.len() as int) =~= string_views(names@));
    out
}

} // verus!
