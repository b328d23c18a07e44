//! Chart text as characters: blanks, comments, keys, values and words.

use vstd::prelude::*;

verus! {

/// A character that counts as blank: one with the Unicode property
/// `White_Space`.
pub open spec fn is_space(c: char) -> bool {
    let u = c as u32;
    ||| 0x09 <= u <= 0x0D
    ||| u == 0x20
    ||| u == 0x85
    ||| u == 0xA0
    ||| u == 0x1680
    ||| 0x2000 <= u <= 0x200A
    ||| u == 0x2028
    ||| u == 0x2029
    ||| u == 0x202F
    ||| u == 0x205F
    ||| u == 0x3000
}

/// The predicate "is the character `c`".
pub open spec fn is_char(c: char) -> spec_fn(char) -> bool {
    |x: char| x == c
}

/// The predicate "is blank".
pub open spec fn blank() -> spec_fn(char) -> bool {
    |x: char| is_space(x)
}

/// The predicate "is not blank".
pub open spec fn inked() -> spec_fn(char) -> bool {
    |x: char| !is_space(x)
}

/// The index of the first character of `s` that `p` holds of; the length of
/// `s` where it holds of none.
pub open spec fn first_where(s: Seq<char>, p: spec_fn(char) -> bool) -> int
    decreases s.len(),
{
    if s.len() == 0 || p(s[0]) {
        0
    } else {
        1 + first_where(s.drop_first(), p)
    }
}

/// How many characters are left of `s` once the characters at its end that
/// `p` holds of are dropped.
pub open spec fn kept_len(s: Seq<char>, p: spec_fn(char) -> bool) -> int
    decreases s.len(),
{
    if s.len() == 0 || !p(s.last()) {
        s.len() as int
    } else {
        kept_len(s.drop_last(), p)
    }
}

/// `s` without the blanks at its start.
pub open spec fn trim_start(s: Seq<char>) -> Seq<char> {
    s.subrange(first_where(s, inked()), s.len() as int)
}

/// `s` without the blanks at its end.
pub open spec fn trim_end(s: Seq<char>) -> Seq<char> {
    s.subrange(0, kept_len(s, blank()))
}

/// `s` without the blanks at its start and at its end.
pub open spec fn trim(s: Seq<char>) -> Seq<char> {
    trim_end(trim_start(s))
}

/// The index at which the first `//` of `s` starts; the length of `s` where
/// it has none.
pub open spec fn comment_start(s: Seq<char>) -> int
    decreases s.len(),
{
    if s.len() < 2 {
        s.len() as int
    } else if s[0] == '/' && s[1] == '/' {
        0
    } else {
        1 + comment_start(s.drop_first())
    }
}

/// `s` up to its first `//`.
pub open spec fn strip_comment(s: Seq<char>) -> Seq<char> {
    s.subrange(0, comment_start(s))
}

/// What stands before and behind the first `c` in `s`, where there is one.
pub open spec fn split_once(s: Seq<char>, c: char) -> Option<(Seq<char>, Seq<char>)> {
    let k = first_where(s, is_char(c));
    if k < s.len() {
        Some((s.subrange(0, k), s.subrange(k + 1, s.len() as int)))
    } else {
        None
    }
}

/// The first word of `s`: what stands behind its leading blanks, up to the
/// next blank. Empty where `s` holds blanks only.
pub open spec fn first_word(s: Seq<char>) -> Seq<char> {
    let t = trim_start(s);
    t.subrange(0, first_where(t, blank()))
}

/// What is left of `s` behind its first word.
pub open spec fn after_first_word(s: Seq<char>) -> Seq<char> {
    let t = trim_start(s);
    t.subrange(first_where(t, blank()), t.len() as int)
}

/// `s` with the ASCII capitals turned into small letters.
pub open spec fn lowered(s: Seq<char>) -> Seq<char> {
    Seq::new(s.len(), |i: int| lower_char(s[i]))
}

/// The small letter of an ASCII capital; any other character is itself.
pub open spec fn lower_char(c: char) -> char {
    if 'A' <= c <= 'Z' {
        ((c as u8) + 32) as char
    } else {
        c
    }
}

/// [`first_where`] is the first index that `p` holds at.
pub proof fn lemma_first_where(s: Seq<char>, p: spec_fn(char) -> bool, k: int)
    requires
        0 <= k <= s.len(),
        forall|j: int| 0 <= j < k ==> !p(#[trigger] s[j]),
        k < s.len() ==> p(s[k]),
    ensures
        first_where(s, p) == k,
    decreases s.len(),
{
    if s.len() == 0 || p(s[0]) {
        if k > 0 {
            assert(!p(s[0]));
        }
    } else {
        let t = s.drop_first();
        assert forall|j: int| 0 <= j < k - 1 implies !p(#[trigger] t[j]) by {
            assert(t[j] == s[j + 1]);
        }
        lemma_first_where(t, p, k - 1);
    }
}

/// [`first_where`] lies within the sequence, `p` holds at it if it is an
/// index, and `p` holds nowhere before it.
pub proof fn lemma_first_where_bounds(s: Seq<char>, p: spec_fn(char) -> bool)
    ensures
        0 <= first_where(s, p) <= s.len(),
        first_where(s, p) < s.len() ==> p(s[first_where(s, p)]),
        forall|j: int| 0 <= j < first_where(s, p) ==> !p(#[trigger] s[j]),
    decreases s.len(),
{
    if s.len() == 0 || p(s[0]) {
    } else {
        let t = s.drop_first();
        lemma_first_where_bounds(t, p);
        assert forall|j: int| 0 <= j < first_where(s, p) implies !p(#[trigger] s[j]) by {
            if j > 0 {
                assert(t[j - 1] == s[j]);
            }
        }
    }
}

/// [`kept_len`] is where the last run of `p` starts.
pub proof fn lemma_kept_len(s: Seq<char>, p: spec_fn(char) -> bool, k: int)
    requires
        0 <= k <= s.len(),
        forall|j: int| k <= j < s.len() ==> p(#[trigger] s[j]),
        k > 0 ==> !p(s[k - 1]),
    ensures
        kept_len(s, p) == k,
    decreases s.len(),
{
    if s.len() == 0 || !p(s.last()) {
        if k < s.len() {
            assert(p(s[s.len() - 1]));
        }
    } else {
        let t = s.drop_last();
        assert forall|j: int| k <= j < t.len() implies p(#[trigger] t[j]) by {
            assert(t[j] == s[j]);
        }
        if k == s.len() {
            assert(!p(s[k - 1]));
        }
        lemma_kept_len(t, p, k);
    }
}

/// [`kept_len`] lies within the sequence.
pub proof fn lemma_kept_len_bounds(s: Seq<char>, p: spec_fn(char) -> bool)
    ensures
        0 <= kept_len(s, p) <= s.len(),
        kept_len(s, p) > 0 ==> !p(s[kept_len(s, p) - 1]),
    decreases s.len(),
{
    if s.len() == 0 || !p(s.last()) {
    } else {
        lemma_kept_len_bounds(s.drop_last(), p);
    }
}

/// [`comment_start`] is the first index at which two slashes stand.
pub proof fn lemma_comment_start(s: Seq<char>, k: int)
    requires
        0 <= k <= s.len(),
        forall|j: int| 0 <= j < k && j + 1 < s.len() ==> !(#[trigger] s[j] == '/' && s[j + 1] == '/'),
        k < s.len() ==> k + 1 < s.len() && s[k] == '/' && s[k + 1] == '/',
    ensures
        comment_start(s) == k,
    decreases s.len(),
{
    if s.len() < 2 {
    } else if s[0] == '/' && s[1] == '/' {
        if k > 0 {
            assert(!(s[0int] == '/' && s[0int + 1] == '/'));
        }
    } else {
        let t = s.drop_first();
        assert forall|j: int| 0 <= j < k - 1 && j + 1 < t.len() implies !(#[trigger] t[j] == '/'
            && t[j + 1] == '/') by {
            assert(t[j] == s[j + 1]);
            assert(t[j + 1] == s[j + 1 + 1]);
            assert(!(s[j + 1] == '/' && s[j + 1 + 1] == '/'));
        }
        if k < s.len() {
            assert(t[k - 1] == s[k]);
            assert(t[k] == s[k + 1]);
        }
        lemma_comment_start(t, k - 1);
    }
}

/// Whether `c` is blank.
pub fn char_is_space(c: char) -> (r: bool)
    ensures
        r == is_space(c),
{
    let u: u32 = c as u32;
    (0x09 <= u && u <= 0x0D) || u == 0x20 || u == 0x85 || u == 0xA0 || u == 0x1680 || (0x2000 <= u
        && u <= 0x200A) || u == 0x2028 || u == 0x2029 || u == 0x202F || u == 0x205F || u == 0x3000
}

/// The characters of `s`.
pub fn chars_of(s: &str) -> (v: Vec<char>)
    ensures
        v@ == s@,
{
    let mut v: Vec<char> = Vec::new();
    for c in it: s.chars()
        invariant
            it.seq() == s@,
            v@ == it.seq().take(it.index() as int),
    {
        proof {
            assert(it.seq().take(it.index() + 1) == it.seq().take(it.index() as int).push(c));
        }
        v.push(c);
    }
    v
}

/// The characters of `v` from `from` up to `to`.
pub fn copy_range(v: &Vec<char>, from: usize, to: usize) -> (r: Vec<char>)
    requires
        from <= to <= v.len(),
    ensures
        r@ == v@.subrange(from as int, to as int),
{
    let mut r: Vec<char> = Vec::new();
    let mut i: usize = from;
    while i < to
        invariant
            from <= i <= to <= v.len(),
            r@ == v@.subrange(from as int, i as int),
        decreases to - i,
    {
        r.push(v[i]);
        proof {
            assert(v@.subrange(from as int, i + 1) == v@.subrange(from as int, i as int).push(
                v@[i as int],
            ));
        }
        i += 1;
    }
    r
}

/// Whether the two hold the same characters.
pub fn same_text(a: &Vec<char>, b: &Vec<char>) -> (r: bool)
    ensures
        r == (a@ == b@),
{
    if a.len() != b.len() {
        return false;
    }
    let mut i: usize = 0;
    while i < a.len()
        invariant
            a.len() == b.len(),
            i <= a.len(),
            forall|j: int| 0 <= j < i ==> a@[j] == b@[j],
        decreases a.len() - i,
    {
        if a[i] != b[i] {
            return false;
        }
        i += 1;
    }
    proof {
        assert(a@ =~= b@);
    }
    true
}

/// Whether `v` holds the characters of `word`.
pub fn is_word(v: &Vec<char>, word: &str) -> (r: bool)
    ensures
        r == (v@ == word@),
{
    let w = chars_of(word);
    same_text(v, &w)
}

/// The index of the first `c` in `v` from `from` on, or the length of `v`.
pub fn find_char_from(v: &Vec<char>, from: usize, c: char) -> (k: usize)
    requires
        from <= v.len(),
    ensures
        k - from == first_where(v@.subrange(from as int, v.len() as int), is_char(c)),
        from <= k <= v.len(),
{
    let mut i: usize = from;
    while i < v.len() && v[i] != c
        invariant
            from <= i <= v.len(),
            forall|j: int| from <= j < i ==> !is_char(c)(#[trigger] v@[j]),
        decreases v.len() - i,
    {
        i += 1;
    }
    proof {
        let tail = v@.subrange(from as int, v.len() as int);
        assert forall|j: int| 0 <= j < i - from implies !is_char(c)(#[trigger] tail[j]) by {
            assert(tail[j] == v@[j + from]);
        }
        lemma_first_where(tail, is_char(c), i - from);
    }
    i
}

/// The index of the first `c` in `v`, or the length of `v`.
pub fn find_char(v: &Vec<char>, c: char) -> (k: usize)
    ensures
        k == first_where(v@, is_char(c)),
        k <= v.len(),
{
    proof {
        assert(v@.subrange(0, v.len() as int) == v@);
    }
    find_char_from(v, 0, c)
}

/// The index of the first blank in `v` (or, with `ink`, of the first
/// character that is not blank), or the length of `v`.
pub fn find_blank(v: &Vec<char>, ink: bool) -> (k: usize)
    ensures
        k == first_where(
            v@,
            if ink {
                inked()
            } else {
                blank()
            },
        ),
        k <= v.len(),
{
    let ghost p = if ink {
        inked()
    } else {
        blank()
    };
    let mut i: usize = 0;
    while i < v.len() && char_is_space(v[i]) == ink
        invariant
            i <= v.len(),
            p == if ink {
                inked()
            } else {
                blank()
            },
            forall|j: int| 0 <= j < i ==> !p(#[trigger] v@[j]),
        decreases v.len() - i,
    {
        i += 1;
    }
    proof {
        lemma_first_where(v@, p, i as int);
    }
    i
}

/// `v` without the blanks at its start and at its end.
pub fn trimmed(v: &Vec<char>) -> (r: Vec<char>)
    ensures
        r@ == trim(v@),
{
    let a: usize = find_blank(v, true);
    let mut b: usize = v.len();
    while b > a && char_is_space(v[b - 1])
        invariant
            a <= b <= v.len(),
            forall|j: int| b <= j < v.len() ==> is_space(#[trigger] v@[j]),
        decreases b,
    {
        b -= 1;
    }
    proof {
        let t = trim_start(v@);
        lemma_first_where_bounds(v@, inked());
        assert forall|j: int| b - a <= j < t.len() implies blank()(#[trigger] t[j]) by {
            assert(t[j] == v@[j + a]);
        }
        if b > a {
            assert(t[b - a - 1] == v@[b - 1]);
        } else if a < v.len() {
            // the first character that is not blank would be blank
            assert(is_space(v@[a as int]));
        }
        lemma_kept_len(t, blank(), b - a);
        assert(t.subrange(0, b - a) == v@.subrange(a as int, b as int));
    }
    copy_range(v, a, b)
}

/// `v` up to its first `//`.
pub fn without_comment(v: &Vec<char>) -> (r: Vec<char>)
    ensures
        r@ == strip_comment(v@),
{
    let n: usize = v.len();
    let mut i: usize = 0;
    while i < n && !(i + 1 < n && v[i] == '/' && v[i + 1] == '/')
        invariant
            n == v.len(),
            i <= n,
            forall|j: int|
                0 <= j < i && j + 1 < n ==> !(#[trigger] v@[j] == '/' && v@[j + 1] == '/'),
        decreases n - i,
    {
        i += 1;
    }
    proof {
        if i < n {
            lemma_comment_start(v@, i as int);
        } else {
            lemma_comment_start(v@, n as int);
        }
    }
    copy_range(v, 0, i)
}

/// What stands before and behind the first `c` in `v`, where there is one.
pub fn split_at_char(v: &Vec<char>, c: char) -> (r: Option<(Vec<char>, Vec<char>)>)
    ensures
        match split_once(v@, c) {
            Some((a, b)) => r matches Some((x, y)) && x@ == a && y@ == b,
            None => r is None,
        },
{
    let k: usize = find_char(v, c);
    if k < v.len() {
        Some((copy_range(v, 0, k), copy_range(v, k + 1, v.len())))
    } else {
        None
    }
}

/// The first word of `v` and what is left behind it.
pub fn split_word(v: &Vec<char>) -> (r: (Vec<char>, Vec<char>))
    ensures
        r.0@ == first_word(v@),
        r.1@ == after_first_word(v@),
{
    let a: usize = find_blank(v, true);
    let t = copy_range(v, a, v.len());
    let b: usize = find_blank(&t, false);
    (copy_range(&t, 0, b), copy_range(&t, b, t.len()))
}

/// `v` with the ASCII capitals turned into small letters.
pub fn lowercase(v: &Vec<char>) -> (r: Vec<char>)
    ensures
        r@ == lowered(v@),
{
    let mut r: Vec<char> = Vec::new();
    let mut i: usize = 0;
    while i < v.len()
        invariant
            i <= v.len(),
            r.len() == i,
            forall|j: int| 0 <= j < i ==> r@[j] == lower_char(v@[j]),
        decreases v.len() - i,
    {
        let c: char = v[i];
        if 'A' <= c && c <= 'Z' {
            r.push(((c as u8) + 32) as char);
        } else {
            r.push(c);
        }
        i += 1;
    }
    proof {
        assert(r@ =~= lowered(v@));
    }
    r
}

} // verus!
