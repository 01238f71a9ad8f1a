//! Lines, trimming and splitting of text, as `str::lines`, `str::trim` and
//! `str::split` with a character pattern do them.

use vstd::prelude::*;
use crate::text::{chars_of, push_char};

verus! {

/// Unicode `White_Space`, the whitespace that `str::trim` removes.
pub open spec fn is_ws(c: char) -> bool {
    let v = c as u32;
    (9 <= v && v <= 13) || v == 32 || v == 0x85 || v == 0xa0 || v == 0x1680 || (0x2000 <= v && v <= 0x200a)
        || v == 0x2028 || v == 0x2029 || v == 0x202f || v == 0x205f || v == 0x3000
}

/// Whether a character is whitespace.
pub fn is_whitespace(c: char) -> (r: bool)
    ensures
        r == is_ws(c),
{
    let v = c as u32;
    (9 <= v && v <= 13) || v == 32 || v == 0x85 || v == 0xa0 || v == 0x1680 || (0x2000 <= v && v <= 0x200a)
        || v == 0x2028 || v == 0x2029 || v == 0x202f || v == 0x205f || v == 0x3000
}

/// Number of leading whitespace characters.
pub open spec fn ws_prefix_len(s: Seq<char>) -> nat
    decreases s.len(),
{
    if s.len() > 0 && is_ws(s[0]) {
        1 + ws_prefix_len(s.subrange(1, s.len() as int))
    } else {
        0
    }
}

/// Number of trailing whitespace characters.
pub open spec fn ws_suffix_len(s: Seq<char>) -> nat
    decreases s.len(),
{
    if s.len() > 0 && is_ws(s.last()) {
        1 + ws_suffix_len(s.drop_last())
    } else {
        0
    }
}

/// The text without leading and trailing whitespace.
pub open spec fn trim_seq(s: Seq<char>) -> Seq<char> {
    let a = ws_prefix_len(s) as int;
    let b = s.len() - ws_suffix_len(s);
    if a >= b {
        Seq::empty()
    } else {
        s.subrange(a, b)
    }
}

/// `ws_prefix_len` is the position of the first non-whitespace character.
proof fn lemma_ws_prefix(s: Seq<char>, a: int)
    requires
        0 <= a <= s.len(),
        forall|j: int| 0 <= j < a ==> is_ws(#[trigger] s[j]),
        a == s.len() || !is_ws(s[a]),
    ensures
        ws_prefix_len(s) == a,
    decreases a,
{
    if a > 0 {
        let t = s.subrange(1, s.len() as int);
        assert forall|j: int| 0 <= j < a - 1 implies is_ws(#[trigger] t[j]) by {
            assert(t[j] == s[j + 1]);
        }
        if a - 1 < t.len() {
            assert(t[a - 1] == s[a]);
        }
        lemma_ws_prefix(t, a - 1);
    }
}

/// `ws_suffix_len` counts the whitespace after the last non-whitespace character.
proof fn lemma_ws_suffix(s: Seq<char>, b: int)
    requires
        0 <= b <= s.len(),
        forall|j: int| b <= j < s.len() ==> is_ws(#[trigger] s[j]),
        b == 0 || !is_ws(s[b - 1]),
    ensures
        ws_suffix_len(s) == s.len() - b,
    decreases s.len() - b,
{
    if b < s.len() {
        let t = s.drop_last();
        assert forall|j: int| b <= j < t.len() implies is_ws(#[trigger] t[j]) by {
            assert(t[j] == s[j]);
        }
        if b > 0 {
            assert(t[b - 1] == s[b - 1]);
        }
        lemma_ws_suffix(t, b);
    }
}

/// The characters `s[a..b]` as a string.
fn string_of(s: &Vec<char>, a: usize, b: usize) -> (r: String)
    requires
        a <= b <= s@.len(),
    ensures
        r@ == s@.subrange(a as int, b as int),
{
    let mut out = String::new();
    let mut i: usize = a;
    assert(out@ =~= s@.subrange(a as int, a as int));
    while i < b
        invariant
            a <= i <= b,
            b <= s@.len(),
            out@ == s@.subrange(a as int, i as int),
        decreases b - i,
    {
        out = push_char(out, s[i]);
        i = i + 1;
        assert(out@ =~= s@.subrange(a as int, i as int));
    }
    out
}

/// `str::trim`: the text without leading and trailing whitespace.
pub fn trim(s: &str) -> (r: String)
    ensures
        r@ == trim_seq(s@),
{
    let chars = chars_of(s);
    let n = chars.len();
    let mut a: usize = 0;
    while a < n && is_whitespace(chars[a])
        invariant
            a <= n,
            n == s@.len(),
            chars@ == s@,
            forall|j: int| 0 <= j < a ==> is_ws(#[trigger] s@[j]),
        decreases n - a,
    {
        a = a + 1;
    }
    proof {
        lemma_ws_prefix(s@, a as int);
    }
    if a == n {
        proof {
            lemma_ws_suffix(s@, 0);
        }
        return String::new();
    }
    let mut b: usize = n;
    while b > a && is_whitespace(chars[b - 1])
        invariant
            a < n,
            a <= b <= n,
            n == s@.len(),
            chars@ == s@,
            !is_ws(s@[a as int]),
            forall|j: int| b <= j < n ==> is_ws(#[trigger] s@[j]),
        decreases b,
    {
        b = b - 1;
    }
    proof {
        lemma_ws_suffix(s@, b as int);
    }
    string_of(&chars, a, b)
}

/// Position of the first `c`, or the length when there is none.
pub open spec fn first_index_of(s: Seq<char>, c: char) -> int
    decreases s.len(),
{
    if s.len() == 0 {
        0
    } else if s[0] == c {
        0
    } else {
        1 + first_index_of(s.subrange(1, s.len() as int), c)
    }
}

proof fn lemma_first_index(s: Seq<char>, c: char, a: int)
    requires
        0 <= a <= s.len(),
        forall|j: int| 0 <= j < a ==> #[trigger] s[j] != c,
        a == s.len() || s[a] == c,
    ensures
        first_index_of(s, c) == a,
    decreases a,
{
    if a > 0 {
        let t = s.subrange(1, s.len() as int);
        assert forall|j: int| 0 <= j < a - 1 implies #[trigger] t[j] != c by {
            assert(t[j] == s[j + 1]);
        }
        if a - 1 < t.len() {
            assert(t[a - 1] == s[a]);
        }
        lemma_first_index(t, c, a - 1);
    }
}

/// The text before the first `c` (all of it when there is none): the first
/// piece of `str::split(c)`.
pub open spec fn before_char(s: Seq<char>, c: char) -> Seq<char> {
    s.subrange(0, first_index_of(s, c))
}

/// The second piece of `str::split(c)`: what follows the first `c` up to the
/// next one, if there is a first one.
pub open spec fn second_piece(s: Seq<char>, c: char) -> Option<Seq<char>> {
    let a = first_index_of(s, c);
    if a >= s.len() {
        None
    } else {
        let rest = s.subrange(a + 1, s.len() as int);
        Some(before_char(rest, c))
    }
}

/// Position of the first `c` at or after `from` in `s`.
fn find_char(s: &Vec<char>, c: char, from: usize) -> (r: usize)
    requires
        from <= s@.len(),
    ensures
        r == from + first_index_of(s@.subrange(from as int, s@.len() as int), c),
        from <= r <= s@.len(),
{
    let mut i: usize = from;
    while i < s.len() && s[i] != c
        invariant
            from <= i <= s@.len(),
            forall|j: int| from <= j < i ==> s@[j] != c,
        decreases s@.len() - i,
    {
        i = i + 1;
    }
    proof {
        let t = s@.subrange(from as int, s@.len() as int);
        assert forall|j: int| 0 <= j < i - from implies #[trigger] t[j] != c by {
            assert(t[j] == s@[from + j]);
        }
        if i < s@.len() {
            assert(t[i - from] == s@[i as int]);
        }
        lemma_first_index(t, c, i - from);
    }
    i
}

/// The first piece of `str::split(c)`.
pub fn split_first(s: &str, c: char) -> (r: String)
    ensures
        r@ == before_char(s@, c),
{
    let chars = chars_of(s);
    let k = find_char(&chars, c, 0);
    assert(s@.subrange(0, s@.len() as int) =~= s@);
    string_of(&chars, 0, k)
}

/// The second piece of `str::split(c)`, if there is one.
pub fn split_second(s: &str, c: char) -> (r: Option<String>)
    ensures
        r matches Some(p) ==> second_piece(s@, c) == Some(p@),
        r is None ==> second_piece(s@, c) is None,
{
    let chars = chars_of(s);
    let a = find_char(&chars, c, 0);
    assert(s@.subrange(0, s@.len() as int) =~= s@);
    if a >= chars.len() {
        return None;
    }
    let b = find_char(&chars, c, a + 1);
    proof {
        let rest = s@.subrange(a + 1, s@.len() as int);
        assert(rest.subrange(0, b - (a + 1)) =~= s@.subrange(a + 1, b as int));
    }
    Some(string_of(&chars, a + 1, b))
}

/// The text cut at every newline (the last piece may be empty).
pub open spec fn segments(s: Seq<char>) -> Seq<Seq<char>>
    decreases s.len(),
{
    if s.len() == 0 {
        seq![Seq::empty()]
    } else {
        let prev = segments(s.drop_last());
        if s.last() == '\n' {
            prev.push(Seq::empty())
        } else {
            prev.update(prev.len() - 1, prev.last().push(s.last()))
        }
    }
}

pub proof fn lemma_segments_nonempty(s: Seq<char>)
    ensures
        segments(s).len() >= 1,
    decreases s.len(),
{
    if s.len() > 0 {
        lemma_segments_nonempty(s.drop_last());
    }
}

/// The lines of `str::lines`, up to a carriage return before each line feed:
/// the pieces between newlines, without a last empty one.
pub open spec fn text_lines(s: Seq<char>) -> Seq<Seq<char>> {
    let p = segments(s);
    if p.last().len() == 0 {
        p.drop_last()
    } else {
        p
    }
}

/// The pieces of the text between newlines, without a last empty one.
pub fn lines(text: &str) -> (r: Vec<String>)
    ensures
        r@.map_values(|l: String| l@) == text_lines(text@),
{
    let chars = chars_of(text);
    let mut out: Vec<String> = Vec::new();
    let mut current = String::new();
    let mut i: usize = 0;
    assert(text@.subrange(0, 0) =~= Seq::<char>::empty());
    assert(current@ =~= Seq::<char>::empty());
    assert(out@.map_values(|l: String| l@) =~= Seq::<Seq<char>>::empty());
    while i < chars.len()
        invariant
            chars@ == text@,
            i <= chars@.len(),
            segments(text@.subrange(0, i as int)).len() >= 1,
            current@ == segments(text@.subrange(0, i as int)).last(),
            out@.map_values(|l: String| l@) == segments(text@.subrange(0, i as int)).drop_last(),
        decreases chars@.len() - i,
    {
        let c = chars[i];
        let ghost pre = text@.subrange(0, i as int);
        let ghost next = text@.subrange(0, i + 1);
        proof {
            assert(next.drop_last() =~= pre);
            assert(next.last() == c);
            lemma_segments_nonempty(pre);
        }
        if c == '\n' {
            let ghost o0 = out@;
            let line = current;
            out.push(line);
            current = String::new();
            proof {
                let sp = segments(pre);
                let sn = segments(next);
                assert(sn == sp.push(Seq::<char>::empty()));
                assert(out@.map_values(|l: String| l@) =~= o0.map_values(|l: String| l@).push(sp.last()));
                assert(sn.drop_last() =~= sp);
                assert(sp =~= sp.drop_last().push(sp.last()));
                assert(current@ =~= Seq::<char>::empty());
            }
        } else {
            proof {
                let sp = segments(pre);
                let sn = segments(next);
                assert(sn == sp.update(sp.len() - 1, sp.last().push(c)));
                assert(sn.drop_last() =~= sp.drop_last());
            }
            current = push_char(current, c);
        }
        i = i + 1;
    }
    proof {
        assert(text@.subrange(0, chars@.len() as int) =~= text@);
        lemma_segments_nonempty(text@);
    }
    if current.as_str().unicode_len() > 0 {
        let ghost o0 = out@;
        out.push(current);
        proof {
            let sp = segments(text@);
            assert(out@.map_values(|l: String| l@) =~= o0.map_values(|l: String| l@).push(sp.last()));
            assert(sp =~= sp.drop_last().push(sp.last()));
        }
    }
    out
}

} // verus!
