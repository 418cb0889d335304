use vstd::prelude::*;

verus! {

/// Characters with the Unicode `White_Space` property, the set that
/// `char::is_whitespace` and `str::trim` use.
pub open spec fn is_ws(c: char) -> bool {
    let u = c as u32;
    (9 <= u && u <= 13) || u == 32 || u == 0x85 || u == 0xA0 || u == 0x1680 || (0x2000 <= u
        && u <= 0x200A) || u == 0x2028 || u == 0x2029 || u == 0x202F || u == 0x205F || u
        == 0x3000
}

/// First index at or after `i` that is not whitespace (or the length).
pub open spec fn lead(t: Seq<char>, i: int) -> int
    decreases t.len() - i,
{
    if 0 <= i < t.len() && is_ws(t[i]) {
        lead(t, i + 1)
    } else {
        i
    }
}

/// Largest end at or below `j` whose preceding character is not whitespace.
pub open spec fn trail(t: Seq<char>, j: int) -> int
    decreases j,
{
    if 0 < j <= t.len() && is_ws(t[j - 1]) {
        trail(t, j - 1)
    } else {
        j
    }
}

/// `t` without leading and trailing whitespace.
pub open spec fn trim(t: Seq<char>) -> Seq<char> {
    let a = lead(t, 0);
    if a >= t.len() {
        Seq::empty()
    } else {
        t.subrange(a, trail(t, t.len() as int))
    }
}

/// Index of the first `c` at or after `i`, or the length when there is none.
pub open spec fn find_from(s: Seq<char>, c: char, i: int) -> int
    decreases s.len() - i,
{
    if i < 0 || i >= s.len() {
        s.len() as int
    } else if s[i] == c {
        i
    } else {
        find_from(s, c, i + 1)
    }
}

/// Whether `c` occurs in `s`.
pub open spec fn has_char(s: Seq<char>, c: char) -> bool {
    exists|k: int| 0 <= k < s.len() && s[k] == c
}

/// The pieces of `s` from index `i` on, cut at each newline.
pub open spec fn lines_from(s: Seq<char>, i: int) -> Seq<Seq<char>>
    decreases s.len() - i,
{
    let k = find_from(s, '\n', i);
    if 0 <= i && i <= k && k < s.len() {
        seq![s.subrange(i, k)] + lines_from(s, k + 1)
    } else {
        seq![s.subrange(i, s.len() as int)]
    }
}

/// The newline-separated pieces of `s`.
pub open spec fn lines(s: Seq<char>) -> Seq<Seq<char>> {
    lines_from(s, 0)
}

pub proof fn lemma_find_from(s: Seq<char>, c: char, i: int)
    requires
        0 <= i <= s.len(),
    ensures
        i <= find_from(s, c, i) <= s.len(),
        find_from(s, c, i) < s.len() ==> s[find_from(s, c, i)] == c,
        forall|k: int| i <= k < find_from(s, c, i) ==> s[k] != c,
    decreases s.len() - i,
{
    if i < s.len() && s[i] != c {
        lemma_find_from(s, c, i + 1);
    }
}

/// A character that does not occur is not found.
pub proof fn lemma_find_absent(s: Seq<char>, c: char, i: int)
    requires
        0 <= i <= s.len(),
        !has_char(s, c),
    ensures
        find_from(s, c, i) == s.len(),
{
    lemma_find_from(s, c, i);
    if find_from(s, c, i) < s.len() {
        assert(s[find_from(s, c, i)] == c);
    }
}

proof fn lemma_trail_above(t: Seq<char>, a: int, j: int)
    requires
        0 <= a < j <= t.len(),
        !is_ws(t[a]),
    ensures
        a < trail(t, j) <= j,
    decreases j,
{
    if 0 < j <= t.len() && is_ws(t[j - 1]) {
        lemma_trail_above(t, a, j - 1);
    }
}

pub proof fn lemma_lead(t: Seq<char>, i: int)
    requires
        0 <= i <= t.len(),
    ensures
        i <= lead(t, i) <= t.len(),
        lead(t, i) < t.len() ==> !is_ws(t[lead(t, i)]),
    decreases t.len() - i,
{
    if 0 <= i < t.len() && is_ws(t[i]) {
        lemma_lead(t, i + 1);
    }
}

/// The trimmed text is a piece of the text it was cut from.
pub proof fn lemma_trim_within(t: Seq<char>)
    ensures
        trim(t).len() <= t.len(),
        trim(t).len() > 0 ==> 0 <= lead(t, 0) && lead(t, 0) + trim(t).len() <= t.len() && trim(
            t,
        ) =~= t.subrange(lead(t, 0), lead(t, 0) + trim(t).len()),
{
    lemma_lead(t, 0);
    let a = lead(t, 0);
    if a < t.len() {
        lemma_trail_above(t, a, t.len() as int);
        assert(trim(t) =~= t.subrange(a, a + trim(t).len()));
    }
}

/// A character absent from a text is absent from its trimmed form.
pub proof fn lemma_trim_absent(t: Seq<char>, c: char)
    requires
        !has_char(t, c),
    ensures
        !has_char(trim(t), c),
{
    lemma_trim_within(t);
    if trim(t).len() > 0 {
        let a = lead(t, 0);
        assert forall|k: int| 0 <= k < trim(t).len() implies trim(t)[k] != c by {
            assert(trim(t)[k] == t[a + k]);
        }
    }
}

/// `char::is_whitespace`, written out over the `White_Space` table.
pub fn is_whitespace_char(c: char) -> (r: bool)
    ensures
        r == is_ws(c),
{
    let u = c as u32;
    (9 <= u && u <= 13) || u == 32 || u == 0x85 || u == 0xA0 || u == 0x1680 || (0x2000 <= u
        && u <= 0x200A) || u == 0x2028 || u == 0x2029 || u == 0x202F || u == 0x205F || u
        == 0x3000
}

/// Index of the first `c` in `s` at or after `i`, or `s.len()`.
pub fn find_char(s: &Vec<char>, c: char, i: usize) -> (r: usize)
    requires
        i <= s@.len(),
    ensures
        r == find_from(s@, c, i as int),
        i <= r <= s@.len(),
{
    let mut j = i;
    while j < s.len() && s[j] != c
        invariant
            i <= j <= s@.len(),
            find_from(s@, c, i as int) == find_from(s@, c, j as int),
        decreases s@.len() - j,
    {
        j = j + 1;
    }
    j
}

/// A copy of `s[a..b]`.
pub fn copy_range(s: &Vec<char>, a: usize, b: usize) -> (r: Vec<char>)
    requires
        a <= b <= s@.len(),
    ensures
        r@ == s@.subrange(a as int, b as int),
{
    let mut r: Vec<char> = Vec::new();
    let mut j = a;
    while j < b
        invariant
            a <= j <= b <= s@.len(),
            r@ == s@.subrange(a as int, j as int),
        decreases b - j,
    {
        r.push(s[j]);
        j = j + 1;
        assert(r@ =~= s@.subrange(a as int, j as int));
    }
    r
}

/// `t` without leading and trailing whitespace.
pub fn trim_chars(t: &Vec<char>) -> (r: Vec<char>)
    ensures
        r@ == trim(t@),
{
    let n = t.len();
    let mut a: usize = 0;
    while a < n && is_whitespace_char(t[a])
        invariant
            n == t@.len(),
            a <= n,
            lead(t@, 0) == lead(t@, a as int),
        decreases n - a,
    {
        a = a + 1;
    }
    if a >= n {
        return Vec::new();
    }
    let mut b: usize = n;
    proof {
        lemma_trail_above(t@, a as int, n as int);
    }
    while b > a + 1 && is_whitespace_char(t[b - 1])
        invariant
            n == t@.len(),
            a < b <= n,
            !is_ws(t@[a as int]),
            trail(t@, n as int) == trail(t@, b as int),
        decreases b,
    {
        b = b - 1;
    }
    copy_range(t, a, b)
}

/// Whether `c` occurs in `s`.
pub fn contains_char(s: &Vec<char>, c: char) -> (r: bool)
    ensures
        r == has_char(s@, c),
{
    let k = find_char(s, c, 0);
    proof {
        lemma_find_from(s@, c, 0);
    }
    k < s.len()
}

/// The texts of a list of character vectors.
pub open spec fn char_seqs(v: Seq<Vec<char>>) -> Seq<Seq<char>> {
    v.map_values(|x: Vec<char>| x@)
}

/// The newline-separated pieces of `s`, each as its own vector.
pub fn split_lines(s: &Vec<char>) -> (r: Vec<Vec<char>>)
    ensures
        char_seqs(r@) == lines(s@),
{
    let mut out: Vec<Vec<char>> = Vec::new();
    let mut i: usize = 0;
    proof {
        assert(char_seqs(out@) + lines_from(s@, 0) =~= lines(s@));
    }
    loop
        invariant
            i <= s@.len(),
            char_seqs(out@) + lines_from(s@, i as int) == lines(s@),
        decreases s@.len() - i,
    {
        let k = find_char(s, '\n', i);
        let line = copy_range(s, i, k);
        let ghost before = out@;
        out.push(line);
        proof {
            assert(char_seqs(out@) =~= char_seqs(before).push(line@));
        }
        if k < s.len() {
            proof {
                let rest = lines_from(s@, (k + 1) as int);
                assert(lines_from(s@, i as int) == seq![line@] + rest);
                assert(char_seqs(before) + (seq![line@] + rest) =~= char_seqs(out@) + rest);
            }
            i = k + 1;
        } else {
            proof {
                assert(lines_from(s@, i as int) == seq![line@]);
                assert(char_seqs(before) + seq![line@] =~= char_seqs(out@));
            }
            return out;
        }
    }
}

/// The characters of `s`, in order.
pub fn chars_of(s: &str) -> (r: Vec<char>)
    ensures
        r@ == s@,
{
    let mut v: Vec<char> = Vec::new();
    for c in it: s.chars()
        invariant
            v@ == it.seq().take(it.index() as int),
    {
        v.push(c);
    }
    v
}

/// Relies on `String`'s `FromIterator<&char>`: the string holding exactly
/// these characters, in order.
#[verifier::external_body]
pub(crate) fn string_of_chars(v: &Vec<char>) -> (r: String)
    ensures
        r@ == v@,
{
    String::from_iter(v.iter())
}

} // verus!
