//! Small verified string utilities: exact equality of string slices,
//! conversion to character vectors, substring search and decimal rendering.

use vstd::prelude::*;

verus! {

/// `true` exactly when the two strings hold the same characters.
pub fn str_eq(a: &str, b: &str) -> (r: bool)
    ensures
        r == (a@ == b@),
{
    let x = a.to_owned();
    let y = b.to_owned();
    x == y
}

/// The characters of `s`, in order.
pub fn chars_of(s: &str) -> (r: Vec<char>)
    ensures
        r@ == s@,
{
    let n = s.unicode_len();
    let mut v: Vec<char> = Vec::new();
    let mut i: usize = 0;
    while i < n
        invariant
            n == s@.len(),
            i <= n,
            v@ == s@.subrange(0, i as int),
        decreases n - i,
    {
        let c = s.get_char(i);
        v.push(c);
        i = i + 1;
        assert(v@ =~= s@.subrange(0, i as int));
    }
    assert(v@ =~= s@);
    v
}

/// `needle` occurs in `hay` starting at position `i`.
pub open spec fn occurs_at(hay: Seq<char>, needle: Seq<char>, i: int) -> bool {
    0 <= i && i + needle.len() <= hay.len() && hay.subrange(i, i + needle.len()) == needle
}

/// `needle` occurs somewhere in `hay` (`str::contains` with a string pattern).
pub open spec fn contains_seq(hay: Seq<char>, needle: Seq<char>) -> bool {
    exists|i: int| occurs_at(hay, needle, i)
}

/// Whether `needle` occurs at position `i` of `hay`.
fn matches_at(hay: &Vec<char>, needle: &Vec<char>, i: usize) -> (r: bool)
    requires
        i <= hay@.len(),
    ensures
        r == occurs_at(hay@, needle@, i as int),
{
    if needle.len() > hay.len() - i {
        return false;
    }
    assert(i + needle@.len() <= hay@.len());
    let mut k: usize = 0;
    while k < needle.len()
        invariant
            i + needle.len() <= hay.len(),
            k <= needle@.len(),
            forall|j: int| 0 <= j < k ==> hay@[i + j] == needle@[j],
        decreases needle@.len() - k,
    {
        if hay[i + k] != needle[k] {
            assert(hay@.subrange(i as int, i + needle@.len())[k as int] != needle@[k as int]);
            return false;
        }
        k = k + 1;
    }
    assert(hay@.subrange(i as int, i + needle@.len()) =~= needle@);
    true
}

/// `str::contains` for a string pattern: whether `needle` occurs in `hay`.
pub fn str_contains(hay: &str, needle: &str) -> (r: bool)
    ensures
        r == contains_seq(hay@, needle@),
{
    let h = chars_of(hay);
    let n = chars_of(needle);
    if n.len() > h.len() {
        return false;
    }
    let mut i: usize = 0;
    while i <= h.len() - n.len()
        invariant
            n@.len() <= h@.len(),
            h@ == hay@,
            n@ == needle@,
            i <= h@.len() - n@.len(),
            forall|j: int| 0 <= j < i ==> !occurs_at(hay@, needle@, j),
        ensures
            i == h@.len() - n@.len(),
            forall|j: int| 0 <= j <= i ==> !occurs_at(hay@, needle@, j),
        decreases h@.len() - i,
    {
        if matches_at(&h, &n, i) {
            return true;
        }
        if i == h.len() - n.len() {
            break;
        }
        i = i + 1;
    }
    proof {
        assert forall|j: int| !occurs_at(hay@, needle@, j) by {
            if 0 <= j && j + needle@.len() <= hay@.len() {
                assert(j <= i);
            }
        }
    }
    false
}

/// Decimal digit character for `d < 10`.
pub open spec fn digit_char(d: int) -> char {
    (('0' as int) + d) as char
}

/// The decimal rendering of `n`, without leading zeros (`"0"` for zero).
pub open spec fn decimal(n: nat) -> Seq<char>
    decreases n,
{
    if n < 10 {
        seq![digit_char(n as int)]
    } else {
        decimal(n / 10).push(digit_char((n % 10) as int))
    }
}

/// Renders `n` in decimal, as `u64::to_string` does.
pub fn u64_to_decimal(n: u64) -> (r: String)
    ensures
        r@ == decimal(n as nat),
{
    let mut digits: Vec<char> = Vec::new();
    let mut m: u64 = n;
    // digits are collected least significant first
    while m >= 10
        invariant
            decimal(n as nat) == decimal(m as nat) + rev_chars(digits@),
        decreases m,
    {
        let d = m % 10;
        let c = digit_of(d);
        proof {
            assert(decimal(m as nat) == decimal((m / 10) as nat).push(c));
            assert(rev_chars(digits@.push(c)) =~= seq![c] + rev_chars(digits@)) by {
                lemma_rev_push(digits@, c);
            }
            assert(decimal(m as nat) + rev_chars(digits@) =~= decimal((m / 10) as nat) + rev_chars(digits@.push(c)));
        }
        digits.push(c);
        m = m / 10;
    }
    let c0 = digit_of(m);
    let mut out = String::new();
    let mut buf: Vec<char> = Vec::new();
    buf.push(c0);
    let mut i: usize = digits.len();
    proof {
        lemma_rev_len(digits@);
    }
    while i > 0
        invariant
            i <= digits@.len(),
            rev_chars(digits@).len() == digits@.len(),
            buf@ == seq![c0] + rev_chars(digits@).subrange(0, (digits@.len() - i) as int),
        decreases i,
    {
        i = i - 1;
        proof {
            lemma_rev_index(digits@, (digits@.len() - 1 - i) as int);
            assert(rev_chars(digits@).subrange(0, (digits@.len() - i) as int) =~= rev_chars(digits@).subrange(0, (digits@.len() - i - 1) as int).push(digits@[i as int]));
        }
        buf.push(digits[i]);
    }
    assert(rev_chars(digits@).subrange(0, digits@.len() as int) =~= rev_chars(digits@));
    assert(decimal(m as nat) == seq![c0]);
    let mut j: usize = 0;
    while j < buf.len()
        invariant
            j <= buf@.len(),
            out@ == buf@.subrange(0, j as int),
        decreases buf@.len() - j,
    {
        out = push_char(out, buf[j]);
        assert(out@ =~= buf@.subrange(0, j + 1));
        j = j + 1;
    }
    assert(buf@.subrange(0, buf@.len() as int) =~= buf@);
    assert(out@ =~= decimal(n as nat));
    out
}

/// The characters of `s` in reverse order.
pub open spec fn rev_chars(s: Seq<char>) -> Seq<char>
    decreases s.len(),
{
    if s.len() == 0 {
        s
    } else {
        seq![s.last()] + rev_chars(s.drop_last())
    }
}

proof fn lemma_rev_push(s: Seq<char>, c: char)
    ensures
        rev_chars(s.push(c)) == seq![c] + rev_chars(s),
{
    assert(s.push(c).drop_last() =~= s);
}

proof fn lemma_rev_len(s: Seq<char>)
    ensures
        rev_chars(s).len() == s.len(),
    decreases s.len(),
{
    if s.len() > 0 {
        lemma_rev_len(s.drop_last());
    }
}

proof fn lemma_rev_index(s: Seq<char>, k: int)
    requires
        0 <= k < s.len(),
    ensures
        rev_chars(s).len() == s.len(),
        rev_chars(s)[k] == s[s.len() - 1 - k],
    decreases s.len(),
{
    lemma_rev_len(s);
    if k > 0 {
        lemma_rev_index(s.drop_last(), k - 1);
    }
}

fn digit_of(d: u64) -> (c: char)
    requires
        d < 10,
    ensures
        c == digit_char(d as int),
{
    if d == 0 { '0' } else if d == 1 { '1' } else if d == 2 { '2' } else if d == 3 { '3' } else if d == 4 { '4' } else if d == 5 { '5' } else if d == 6 { '6' } else if d == 7 { '7' } else if d == 8 { '8' } else { '9' }
}

/// Appends one character to a string.
#[verifier::external_body]
pub fn push_char(s: String, c: char) -> (r: String)
    ensures
        r@ == s@.push(c),
{
    let mut s = s;
    s.push(c);
    s
}

/// Concatenates two string slices into a new string.
pub fn concat(a: &str, b: &str) -> (r: String)
    ensures
        r@ == a@ + b@,
{
    let s = a.to_owned();
    s.concat(b)
}

/// The Unicode lowercase mapping of a string, as `str::to_lowercase`
/// computes it.
pub uninterp spec fn lowercase(s: Seq<char>) -> Seq<char>;

/// Calls `str::to_lowercase`: its result is the Unicode lowercase mapping of
/// `s` and depends on `s` alone; the mapping itself is not restated here.
#[verifier::external_body]
pub fn to_lowercase(s: &str) -> (r: String)
    ensures
        r@ == lowercase(s@),
{
    s.to_lowercase()
}

/// The names held by a list of strings.
pub open spec fn names_set(v: Seq<String>) -> Set<Seq<char>> {
    Set::new(|x: Seq<char>| exists|i: int| 0 <= i < v.len() && (#[trigger] v[i])@ == x)
}

/// Whether a name is in the list.
pub fn names_contains(v: &Vec<String>, name: &str) -> (r: bool)
    ensures
        r == names_set(v@).contains(name@),
{
    let mut i: usize = 0;
    while i < v.len()
        invariant
            i <= v@.len(),
            forall|j: int| 0 <= j < i ==> (#[trigger] v@[j])@ != name@,
        decreases v@.len() - i,
    {
        if str_eq(v[i].as_str(), name) {
            assert(names_set(v@).contains(name@)) by {
                assert(v@[i as int]@ == name@);
            }
            return true;
        }
        i = i + 1;
    }
    false
}

/// Adds a name to the list unless it is there already.
pub fn names_insert(v: &mut Vec<String>, name: &str)
    ensures
        names_set(final(v)@) == names_set(old(v)@).insert(name@),
{
    if !names_contains(v, name) {
        let ghost before = v@;
        v.push(name.to_string());
        proof {
            assert forall|x: Seq<char>| names_set(v@).contains(x) <==> names_set(before).insert(name@).contains(x) by {
                if names_set(v@).contains(x) {
                    let i = choose|i: int| 0 <= i < v@.len() && (#[trigger] v@[i])@ == x;
                    if i < before.len() {
                        assert(before[i]@ == x);
                    }
                }
                if names_set(before).contains(x) {
                    let i = choose|i: int| 0 <= i < before.len() && (#[trigger] before[i])@ == x;
                    assert(v@[i]@ == x);
                }
                if x == name@ {
                    assert(v@[before.len() as int]@ == x);
                }
            }
            assert(names_set(v@) =~= names_set(before).insert(name@));
        }
    } else {
        assert(names_set(v@) =~= names_set(v@).insert(name@));
    }
}

/// Removes every copy of a name from the list.
pub fn names_remove(v: &mut Vec<String>, name: &str)
    ensures
        names_set(final(v)@) == names_set(old(v)@).remove(name@),
{
    let ghost before = v@;
    let mut kept: Vec<String> = Vec::new();
    let mut i: usize = 0;
    while i < v.len()
        invariant
            i <= v@.len(),
            v@ == before,
            forall|x: Seq<char>| names_set(kept@).contains(x) <==> (x != name@ && exists|j: int| 0 <= j < i && (#[trigger] before[j])@ == x),
        decreases v@.len() - i,
    {
        if !str_eq(v[i].as_str(), name) {
            let ghost k0 = kept@;
            kept.push(v[i].clone());
            proof {
                assert forall|x: Seq<char>| names_set(kept@).contains(x) <==> (x != name@ && exists|j: int| 0 <= j < i + 1 && (#[trigger] before[j])@ == x) by {
                    if names_set(kept@).contains(x) {
                        let t = choose|t: int| 0 <= t < kept@.len() && (#[trigger] kept@[t])@ == x;
                        if t < k0.len() {
                            assert(k0[t]@ == x);
                            assert(names_set(k0).contains(x));
                        } else {
                            assert(before[i as int]@ == x);
                        }
                    }
                    if x != name@ && exists|j: int| 0 <= j < i + 1 && (#[trigger] before[j])@ == x {
                        let j = choose|j: int| 0 <= j < i + 1 && (#[trigger] before[j])@ == x;
                        if j < i {
                            assert(names_set(k0).contains(x));
                            let t = choose|t: int| 0 <= t < k0.len() && (#[trigger] k0[t])@ == x;
                            assert(kept@[t]@ == x);
                        } else {
                            assert(kept@[k0.len() as int]@ == x);
                        }
                    }
                }
            }
        } else {
            proof {
                assert forall|x: Seq<char>| names_set(kept@).contains(x) <==> (x != name@ && exists|j: int| 0 <= j < i + 1 && (#[trigger] before[j])@ == x) by {
                    if x != name@ && exists|j: int| 0 <= j < i + 1 && (#[trigger] before[j])@ == x {
                        let j = choose|j: int| 0 <= j < i + 1 && (#[trigger] before[j])@ == x;
                        assert(j < i);
                    }
                }
            }
        }
        i = i + 1;
    }
    proof {
        assert forall|x: Seq<char>| names_set(kept@).contains(x) <==> names_set(before).remove(name@).contains(x) by {
            if names_set(before).contains(x) {
                let j = choose|j: int| 0 <= j < before.len() && (#[trigger] before[j])@ == x;
            }
        }
        assert(names_set(kept@) =~= names_set(before).remove(name@));
    }
    *v = kept;
}

} // verus!
