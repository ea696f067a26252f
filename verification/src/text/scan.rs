//! Words, trimming, prefixes and replacement.

use vstd::prelude::*;

verus! {

/// The characters of Unicode's `White_Space` property.
pub open spec fn is_space(c: char) -> bool {
    ||| 0x09 <= c as u32 <= 0x0d
    ||| c as u32 == 0x20
    ||| c as u32 == 0x85
    ||| c as u32 == 0xa0
    ||| c as u32 == 0x1680
    ||| 0x2000 <= c as u32 <= 0x200a
    ||| c as u32 == 0x2028
    ||| c as u32 == 0x2029
    ||| c as u32 == 0x202f
    ||| c as u32 == 0x205f
    ||| c as u32 == 0x3000
}

/// Whether `c` is white space.
pub fn is_whitespace(c: char) -> (b: bool)
    ensures
        b == is_space(c),
{
    let u: u32 = c as u32;
    (0x09 <= u && u <= 0x0d) || u == 0x20 || u == 0x85 || u == 0xa0 || u == 0x1680 || (0x2000 <= u
        && u <= 0x200a) || u == 0x2028 || u == 0x2029 || u == 0x202f || u == 0x205f || u == 0x3000
}

/// `s` without the white space in front.
pub open spec fn trim_start(s: Seq<char>) -> Seq<char>
    decreases s.len(),
{
    if s.len() > 0 && is_space(s[0]) {
        trim_start(s.skip(1))
    } else {
        s
    }
}

/// `s` without the white space at its end.
pub open spec fn trim_end(s: Seq<char>) -> Seq<char>
    decreases s.len(),
{
    if s.len() > 0 && is_space(s.last()) {
        trim_end(s.drop_last())
    } else {
        s
    }
}

/// `s` without the white space around it.
pub open spec fn trimmed(s: Seq<char>) -> Seq<char> {
    trim_end(trim_start(s))
}

/// The part of `s` before its first white space.
pub open spec fn first_word(s: Seq<char>) -> Seq<char>
    decreases s.len(),
{
    if s.len() == 0 || is_space(s[0]) {
        Seq::empty()
    } else {
        seq![s[0]] + first_word(s.skip(1))
    }
}

pub proof fn lemma_trim_start_len(s: Seq<char>)
    ensures
        trim_start(s).len() <= s.len(),
    decreases s.len(),
{
    if s.len() > 0 && is_space(s[0]) {
        lemma_trim_start_len(s.skip(1));
    }
}

pub proof fn lemma_first_word_len(s: Seq<char>)
    ensures
        first_word(s).len() <= s.len(),
        s.len() > 0 && !is_space(s[0]) ==> first_word(s).len() > 0,
    decreases s.len(),
{
    if s.len() > 0 && !is_space(s[0]) {
        lemma_first_word_len(s.skip(1));
    }
}

/// The words of `s`: what stands between runs of white space, in order.
pub open spec fn words(s: Seq<char>) -> Seq<Seq<char>>
    decreases s.len(),
{
    let t = trim_start(s);
    if t.len() == 0 {
        Seq::empty()
    } else {
        proof {
            lemma_trim_start_len(s);
            lemma_first_word_len(t);
            lemma_trim_start_not_space(s);
        }
        seq![first_word(t)] + words(t.skip(first_word(t).len() as int))
    }
}

pub proof fn lemma_trim_start_not_space(s: Seq<char>)
    ensures
        trim_start(s).len() > 0 ==> !is_space(trim_start(s)[0]),
    decreases s.len(),
{
    if s.len() > 0 && is_space(s[0]) {
        lemma_trim_start_not_space(s.skip(1));
    }
}

/// The views of a list of strings.
pub open spec fn texts(v: Seq<String>) -> Seq<Seq<char>> {
    Seq::new(v.len(), |i: int| v[i]@)
}

/// The characters of `s`.
pub fn chars_of(s: &str) -> (v: Vec<char>)
    ensures
        v@ == s@,
{
    let mut v: Vec<char> = Vec::new();
    for c in it: s.chars()
        invariant
            it.seq() == s@,
            v@ == it.seq().take(it.index() as int),
    {
        v.push(c);
    }
    v
}

/// The part of `s` from character `from` up to character `to`.
pub fn slice_of(s: &str, from: usize, to: usize) -> (r: String)
    requires
        from <= to <= s@.len(),
    ensures
        r@ == s@.subrange(from as int, to as int),
{
    s.substring_char(from, to).to_owned()
}

/// Whether two texts are the same.
pub fn same_text(a: &str, b: &str) -> (r: bool)
    ensures
        r == (a@ == b@),
{
    let x = chars_of(a);
    let y = chars_of(b);
    if x.len() != y.len() {
        return false;
    }
    let mut i: usize = 0;
    while i < x.len()
        invariant
            x@ == a@,
            y@ == b@,
            x.len() == y.len(),
            i <= x.len(),
            forall|j: int| 0 <= j < i ==> x@[j] == y@[j],
        decreases x.len() - i,
    {
        if x[i] != y[i] {
            assert(a@[i as int] != b@[i as int]);
            return false;
        }
        i += 1;
    }
    assert(a@ =~= b@);
    true
}

/// Whether `p` stands in `x` at `at`.
fn stands_at(x: &Vec<char>, at: usize, p: &Vec<char>) -> (r: bool)
    requires
        at <= x.len(),
    ensures
        r == p@.is_prefix_of(x@.skip(at as int)),
{
    if p.len() > x.len() - at {
        return false;
    }
    let mut i: usize = 0;
    while i < p.len()
        invariant
            at <= x.len(),
            p.len() <= x.len() - at,
            i <= p.len(),
            forall|j: int| 0 <= j < i ==> x@[at + j] == p@[j],
        decreases p.len() - i,
    {
        if x[at + i] != p[i] {
            assert(x@.skip(at as int).subrange(0, p@.len() as int)[i as int] != p@[i as int]);
            return false;
        }
        i += 1;
    }
    assert(p@ =~= x@.skip(at as int).subrange(0, p@.len() as int));
    true
}

/// Whether `s` begins with `prefix`.
pub fn has_prefix(s: &str, prefix: &str) -> (r: bool)
    ensures
        r == prefix@.is_prefix_of(s@),
{
    let x = chars_of(s);
    let p = chars_of(prefix);
    assert(x@.skip(0) =~= x@);
    stands_at(&x, 0, &p)
}

/// What follows `prefix` in `s`, where `s` begins with it.
pub open spec fn after_prefix(s: Seq<char>, prefix: Seq<char>) -> Option<Seq<char>> {
    if prefix.is_prefix_of(s) {
        Some(s.skip(prefix.len() as int))
    } else {
        None
    }
}

/// Takes `prefix` off the front of `s`.
pub fn strip_prefix(s: &str, prefix: &str) -> (r: Option<String>)
    ensures
        match r {
            Some(t) => after_prefix(s@, prefix@) == Some(t@),
            None => after_prefix(s@, prefix@) is None,
        },
{
    if has_prefix(s, prefix) {
        let n: usize = prefix.unicode_len();
        let m: usize = s.unicode_len();
        let t = slice_of(s, n, m);
        assert(t@ =~= s@.skip(n as int));
        Some(t)
    } else {
        None
    }
}

/// What stands before and after the first `c` in `s`.
pub open spec fn split_at_char(s: Seq<char>, c: char) -> Option<(Seq<char>, Seq<char>)>
    decreases s.len(),
{
    if s.len() == 0 {
        None
    } else if s[0] == c {
        Some((Seq::empty(), s.skip(1)))
    } else {
        match split_at_char(s.skip(1), c) {
            None => None,
            Some((before, after)) => Some((seq![s[0]] + before, after)),
        }
    }
}

/// `split_at_char` cuts at the first `c`: the two parts make up `s` around it, and the first
/// part holds no `c`.
pub proof fn lemma_split_at_char(s: Seq<char>, c: char)
    ensures
        match split_at_char(s, c) {
            None => !s.contains(c),
            Some((before, after)) => s == before + seq![c] + after && !before.contains(c),
        },
    decreases s.len(),
{
    if s.len() > 0 && s[0] != c {
        lemma_split_at_char(s.skip(1), c);
        match split_at_char(s.skip(1), c) {
            None => {
                assert forall|i: int| 0 <= i < s.len() implies s[i] != c by {
                    if i > 0 {
                        assert(s.skip(1)[i - 1] == s[i]);
                    }
                }
            },
            Some((before, after)) => {
                let b = seq![s[0]] + before;
                assert(s =~= seq![s[0]] + s.skip(1));
                assert(b + seq![c] + after =~= seq![s[0]] + (before + seq![c] + after));
                assert forall|i: int| 0 <= i < b.len() implies b[i] != c by {
                    if i > 0 {
                        assert(before[i - 1] == b[i]);
                    }
                }
            },
        }
    } else if s.len() > 0 {
        assert(s =~= Seq::<char>::empty() + seq![c] + s.skip(1));
    }
}

/// A cut at a `c` with none before it is the one that `split_at_char` makes.
pub proof fn lemma_split_at_char_is(before: Seq<char>, c: char, after: Seq<char>)
    requires
        !before.contains(c),
    ensures
        split_at_char(before + seq![c] + after, c) == Some((before, after)),
    decreases before.len(),
{
    let s = before + seq![c] + after;
    if before.len() == 0 {
        assert(s.skip(1) =~= after);
        assert(before =~= Seq::empty());
    } else {
        let b = before.skip(1);
        assert(before[0] != c) by {
            assert(before.contains(before[0]));
        }
        assert forall|i: int| 0 <= i < b.len() implies b[i] != c by {
            assert(before.contains(before[i + 1]));
        }
        lemma_split_at_char_is(b, c, after);
        assert(s.skip(1) =~= b + seq![c] + after);
        assert(before =~= seq![s[0]] + b);
    }
}

/// Splits `s` at its first `c`.
pub fn split_once(s: &str, c: char) -> (r: Option<(String, String)>)
    ensures
        match r {
            Some((before, after)) => split_at_char(s@, c) == Some((before@, after@)),
            None => split_at_char(s@, c) is None,
        },
{
    let x = chars_of(s);
    let mut i: usize = 0;
    while i < x.len()
        invariant
            x@ == s@,
            i <= x.len(),
            forall|j: int| 0 <= j < i ==> x@[j] != c,
        decreases x.len() - i,
    {
        if x[i] == c {
            let before = slice_of(s, 0, i);
            let after = slice_of(s, i + 1, x.len());
            proof {
                assert(s@ =~= before@ + seq![c] + after@);
                lemma_split_at_char_is(before@, c, after@);
            }
            return Some((before, after));
        }
        i += 1;
    }
    proof {
        lemma_split_at_char(s@, c);
        assert(!s@.contains(c));
        if let Some((before, after)) = split_at_char(s@, c) {
            assert(s@[before.len() as int] == c);
        }
    }
    None
}

/// Takes the white space off both ends of `s`.
pub fn trim(s: &str) -> (r: String)
    ensures
        r@ == trimmed(s@),
{
    let x = chars_of(s);
    let n: usize = x.len();
    let mut a: usize = 0;
    assert(s@.skip(0) =~= s@);
    while a < n && is_whitespace(x[a])
        invariant
            x@ == s@,
            n == x.len(),
            a <= n,
            trim_start(s@) == trim_start(s@.skip(a as int)),
        decreases n - a,
    {
        assert(s@.skip(a as int).skip(1) =~= s@.skip(a + 1));
        a += 1;
    }
    let mut b: usize = n;
    assert(s@.subrange(a as int, n as int) =~= s@.skip(a as int));
    while b > a && is_whitespace(x[b - 1])
        invariant
            x@ == s@,
            n == x.len(),
            a <= b <= n,
            trimmed(s@) == trim_end(s@.subrange(a as int, b as int)),
        decreases b,
    {
        assert(s@.subrange(a as int, b as int).drop_last() =~= s@.subrange(a as int, b - 1));
        b -= 1;
    }
    slice_of(s, a, b)
}

/// The words of `s`, in order.
pub fn split_whitespace(s: &str) -> (r: Vec<String>)
    ensures
        texts(r@) == words(s@),
{
    let x = chars_of(s);
    let n: usize = x.len();
    let mut out: Vec<String> = Vec::new();
    let mut i: usize = 0;
    assert(s@.skip(0) =~= s@);
    assert(texts(out@) + words(s@) =~= words(s@));
    while i < n
        invariant
            x@ == s@,
            n == x.len(),
            i <= n,
            texts(out@) + words(s@.skip(i as int)) == words(s@),
        decreases n - i,
    {
        if is_whitespace(x[i]) {
            proof {
                assert(s@.skip(i as int).skip(1) =~= s@.skip(i + 1));
                lemma_words_space(s@.skip(i as int));
            }
            i += 1;
        } else {
            let ghost rest = s@.skip(i as int);
            let mut j: usize = i;
            assert(Seq::<char>::empty() + first_word(rest) =~= first_word(rest));
            while j < n && !is_whitespace(x[j])
                invariant
                    x@ == s@,
                    n == x.len(),
                    i <= j <= n,
                    rest == s@.skip(i as int),
                    s@.subrange(i as int, j as int) + first_word(s@.skip(j as int)) == first_word(rest),
                decreases n - j,
            {
                proof {
                    let here = s@.skip(j as int);
                    assert(here.skip(1) =~= s@.skip(j + 1));
                    assert(s@.subrange(i as int, j + 1) + first_word(here.skip(1)) =~= s@.subrange(
                        i as int,
                        j as int,
                    ) + (seq![here[0]] + first_word(here.skip(1))));
                }
                j += 1;
            }
            let w = slice_of(s, i, j);
            proof {
                assert(first_word(s@.skip(j as int)) =~= Seq::<char>::empty());
                assert(w@ =~= first_word(rest));
                lemma_first_word_len(rest);
                assert(trim_start(rest) == rest);
                assert(rest.skip(first_word(rest).len() as int) =~= s@.skip(j as int));
                assert(texts(out@.push(w)) =~= texts(out@).push(w@));
                assert(texts(out@) + (seq![w@] + words(s@.skip(j as int))) =~= texts(out@).push(w@)
                    + words(s@.skip(j as int)));
            }
            out.push(w);
            i = j;
        }
    }
    proof {
        assert(s@.skip(n as int) =~= Seq::<char>::empty());
        assert(texts(out@) + words(s@.skip(n as int)) =~= texts(out@));
    }
    out
}

proof fn lemma_words_space(s: Seq<char>)
    requires
        s.len() > 0,
        is_space(s[0]),
    ensures
        words(s) == words(s.skip(1)),
{
    assert(trim_start(s) == trim_start(s.skip(1)));
}

/// `s` with the first occurrence of `from` replaced by `to`.
pub open spec fn replace_first(s: Seq<char>, from: Seq<char>, to: Seq<char>) -> Seq<char>
    decreases s.len(),
{
    if from.is_prefix_of(s) {
        to + s.skip(from.len() as int)
    } else if s.len() == 0 {
        s
    } else {
        seq![s[0]] + replace_first(s.skip(1), from, to)
    }
}

/// Replaces the first occurrence of `from` in `s` by `to`.
pub fn replacen_once(s: &str, from: &str, to: &str) -> (r: String)
    ensures
        r@ == replace_first(s@, from@, to@),
{
    let x = chars_of(s);
    let p = chars_of(from);
    let n: usize = x.len();
    let m: usize = p.len();
    let mut i: usize = 0;
    assert(s@.skip(0) =~= s@);
    assert(s@.take(0) + replace_first(s@, from@, to@) =~= replace_first(s@, from@, to@));
    while i < n
        invariant
            x@ == s@,
            p@ == from@,
            n == s@.len(),
            m == from@.len(),
            i <= n,
            s@.take(i as int) + replace_first(s@.skip(i as int), from@, to@) == replace_first(
                s@,
                from@,
                to@,
            ),
        decreases n - i,
    {
        let ghost tail = s@.skip(i as int);
        if stands_at(&x, i, &p) {
            let mut out = slice_of(s, 0, i);
            out.append(to);
            let rest = slice_of(s, i + m, n);
            out.append(rest.as_str());
            proof {
                assert(rest@ =~= tail.skip(m as int));
                assert(out@ =~= s@.take(i as int) + (to@ + tail.skip(m as int)));
            }
            return out;
        }
        proof {
            let here = s@.skip(i as int);
            assert(here.skip(1) =~= s@.skip(i + 1));
            assert(s@.take(i + 1) + replace_first(here.skip(1), from@, to@) =~= s@.take(i as int) + (
            seq![here[0]] + replace_first(here.skip(1), from@, to@)));
        }
        i += 1;
    }
    let mut out = slice_of(s, 0, n);
    if m == 0 {
        out.append(to);
    }
    proof {
        let here = s@.skip(n as int);
        assert(here =~= Seq::<char>::empty());
        assert(s@.take(n as int) =~= s@);
        if m == 0 {
            assert(from@ =~= Seq::<char>::empty());
            assert(to@ + here.skip(0) =~= to@);
            assert(from@.is_prefix_of(here));
        }
        assert(out@ =~= s@.take(n as int) + replace_first(here, from@, to@));
    }
    out
}

/// A word: some characters, none of them white space.
pub open spec fn is_word(s: Seq<char>) -> bool {
    s.len() > 0 && forall|i: int| 0 <= i < s.len() ==> !is_space(#[trigger] s[i])
}

/// The first word of a word with white space behind it.
proof fn lemma_first_word_is(word: Seq<char>, rest: Seq<char>)
    requires
        forall|i: int| 0 <= i < word.len() ==> !is_space(#[trigger] word[i]),
        rest.len() > 0 ==> is_space(rest[0]),
    ensures
        first_word(word + rest) == word,
    decreases word.len(),
{
    let s = word + rest;
    if word.len() == 0 {
        assert(s =~= rest);
        assert(first_word(s) =~= word);
    } else {
        let w = word.skip(1);
        assert forall|i: int| 0 <= i < w.len() implies !is_space(#[trigger] w[i]) by {
            assert(w[i] == word[i + 1]);
        }
        lemma_first_word_is(w, rest);
        assert(s.skip(1) =~= w + rest);
        assert(!is_space(word[0]));
        assert(seq![s[0]] + w =~= word);
    }
}

/// Taking a word off the front.
proof fn lemma_words_step(word: Seq<char>, rest: Seq<char>)
    requires
        is_word(word),
        rest.len() > 0 ==> is_space(rest[0]),
    ensures
        words(word + rest) == seq![word] + words(rest),
{
    let s = word + rest;
    lemma_first_word_is(word, rest);
    assert(!is_space(word[0]));
    assert(s[0] == word[0]);
    assert(trim_start(s) == s);
    assert(s.skip(word.len() as int) =~= rest);
}

/// The words of words with a space between them.
pub proof fn lemma_words_of_three(a: Seq<char>, b: Seq<char>, c: Seq<char>)
    requires
        is_word(a),
        is_word(b),
        is_word(c),
    ensures
        words(a + seq![' '] + b + seq![' '] + c) == seq![a, b, c],
{
    let none = Seq::<char>::empty();
    lemma_words_step(c, none);
    assert(c + none =~= c);
    assert(words(none) =~= Seq::empty());
    let t = seq![' '] + c;
    lemma_words_space(t);
    assert(t.skip(1) =~= c);
    lemma_words_step(b, t);
    let u = seq![' '] + (b + t);
    lemma_words_space(u);
    assert(u.skip(1) =~= b + t);
    lemma_words_step(a, u);
    assert(a + u =~= a + seq![' '] + b + seq![' '] + c);
    assert(words(a + u) =~= seq![a, b, c]);
}

/// What `words` gives are words.
pub proof fn lemma_words_are_words(s: Seq<char>)
    ensures
        forall|i: int| 0 <= i < words(s).len() ==> is_word(#[trigger] words(s)[i]),
    decreases s.len(),
{
    let t = trim_start(s);
    if t.len() > 0 {
        lemma_trim_start_len(s);
        lemma_first_word_len(t);
        lemma_trim_start_not_space(s);
        lemma_first_word_no_space(t);
        let rest = t.skip(first_word(t).len() as int);
        lemma_words_are_words(rest);
        assert forall|i: int| 0 <= i < words(s).len() implies is_word(#[trigger] words(s)[i]) by {
            if i > 0 {
                assert(words(s)[i] == words(rest)[i - 1]);
            }
        }
    }
}

proof fn lemma_first_word_no_space(s: Seq<char>)
    ensures
        forall|i: int| 0 <= i < first_word(s).len() ==> !is_space(#[trigger] first_word(s)[i]),
    decreases s.len(),
{
    if s.len() > 0 && !is_space(s[0]) {
        lemma_first_word_no_space(s.skip(1));
        assert forall|i: int| 0 <= i < first_word(s).len() implies !is_space(
            #[trigger] first_word(s)[i],
        ) by {
            if i > 0 {
                assert(first_word(s)[i] == first_word(s.skip(1))[i - 1]);
            }
        }
    }
}

proof fn lemma_trim_start_part(s: Seq<char>) -> (a: int)
    ensures
        0 <= a <= s.len(),
        trim_start(s) == s.skip(a),
    decreases s.len(),
{
    if s.len() > 0 && is_space(s[0]) {
        let a = lemma_trim_start_part(s.skip(1));
        assert(s.skip(1).skip(a) =~= s.skip(a + 1));
        a + 1
    } else {
        assert(s.skip(0) =~= s);
        0
    }
}

proof fn lemma_trim_end_part(s: Seq<char>) -> (b: int)
    ensures
        0 <= b <= s.len(),
        trim_end(s) == s.take(b),
        b > 0 ==> !is_space(s[b - 1]),
    decreases s.len(),
{
    if s.len() > 0 && is_space(s.last()) {
        let b = lemma_trim_end_part(s.drop_last());
        assert(s.drop_last().take(b) =~= s.take(b));
        b
    } else {
        assert(s.take(s.len() as int) =~= s);
        s.len() as int
    }
}

/// Trimming keeps a part of the text; the result is where that part begins and ends.
pub proof fn lemma_trimmed_part(s: Seq<char>) -> (r: (int, int))
    ensures
        0 <= r.0 <= r.1 <= s.len(),
        trimmed(s) == s.subrange(r.0, r.1),
{
    let a = lemma_trim_start_part(s);
    let b = lemma_trim_end_part(s.skip(a));
    assert(s.skip(a).take(b) =~= s.subrange(a, a + b));
    (a, a + b)
}

/// Trimming twice is trimming once.
pub proof fn lemma_trimmed_again(s: Seq<char>)
    ensures
        trimmed(trimmed(s)) == trimmed(s),
{
    let t = trim_start(s);
    lemma_trim_start_not_space(s);
    let b = lemma_trim_end_part(t);
    let u = trim_end(t);
    if u.len() > 0 {
        assert(u[0] == t[0]);
        assert(u.last() == t[b - 1]);
    }
    assert(trim_start(u) == u);
    assert(trim_end(u) == u);
}

/// A space in front does not matter to trimming.
pub proof fn lemma_trimmed_after_space(s: Seq<char>)
    ensures
        trimmed(seq![' '] + s) == trimmed(s),
{
    assert((seq![' '] + s).skip(1) =~= s);
}

/// White space and nothing else.
pub open spec fn is_blank(s: Seq<char>) -> bool {
    forall|i: int| 0 <= i < s.len() ==> is_space(#[trigger] s[i])
}

/// No white space at either end.
pub open spec fn has_firm_ends(s: Seq<char>) -> bool {
    s.len() > 0 ==> !is_space(s[0]) && !is_space(s.last())
}

proof fn lemma_trim_start_of(a: Seq<char>, s: Seq<char>)
    requires
        is_blank(a),
    ensures
        trim_start(a + s) == trim_start(s),
    decreases a.len(),
{
    if a.len() == 0 {
        assert(a + s =~= s);
    } else {
        let b = a.skip(1);
        assert(is_space(a[0]));
        assert forall|i: int| 0 <= i < b.len() implies is_space(#[trigger] b[i]) by {
            assert(b[i] == a[i + 1]);
        }
        lemma_trim_start_of(b, s);
        assert((a + s).skip(1) =~= b + s);
    }
}

proof fn lemma_trim_end_of(s: Seq<char>, b: Seq<char>)
    requires
        is_blank(b),
    ensures
        trim_end(s + b) == trim_end(s),
    decreases b.len(),
{
    if b.len() == 0 {
        assert(s + b =~= s);
    } else {
        let c = b.drop_last();
        assert(is_space(b[b.len() - 1]));
        assert forall|i: int| 0 <= i < c.len() implies is_space(#[trigger] c[i]) by {
            assert(c[i] == b[i]);
        }
        lemma_trim_end_of(s, c);
        assert((s + b).drop_last() =~= s + c);
    }
}

/// Trimming takes off white space around a text, and nothing of the text.
pub proof fn law_trimming_takes_blanks_off(a: Seq<char>, s: Seq<char>, b: Seq<char>)
    requires
        is_blank(a),
        is_blank(b),
        has_firm_ends(s),
    ensures
        trimmed(a + s + b) == s,
{
    assert(a + s + b =~= a + (s + b));
    lemma_trim_start_of(a, s + b);
    if s.len() == 0 {
        assert(s + b =~= b);
        let none = Seq::<char>::empty();
        assert(b + none =~= b);
        lemma_trim_start_of(b, none);
        assert(trim_start(b) =~= none);
        assert(trimmed(a + s + b) =~= s);
    } else {
        assert((s + b)[0] == s[0]);
        assert(trim_start(s + b) == s + b);
        lemma_trim_end_of(s, b);
    }
}

/// The words of a text are what stands between its white space: a word in front, with white space
/// before it or not, is the first, and the others follow.
pub proof fn law_words_stand_between_blanks(a: Seq<char>, word: Seq<char>, rest: Seq<char>)
    requires
        is_blank(a),
        word.len() > 0,
        forall|i: int| 0 <= i < word.len() ==> !is_space(#[trigger] word[i]),
        rest.len() > 0 ==> is_space(rest[0]),
    ensures
        words(a) == Seq::<Seq<char>>::empty(),
        words(a + word + rest) == seq![word] + words(rest),
{
    let none = Seq::<char>::empty();
    lemma_trim_start_of(a, none);
    assert(a + none =~= a);
    lemma_trim_start_of(a, word + rest);
    assert(a + word + rest =~= a + (word + rest));
    lemma_words_step(word, rest);
    assert(!is_space(word[0]));
    assert((word + rest)[0] == word[0]);
    assert(trim_start(word + rest) == word + rest);
}

/// The first occurrence is replaced, and nothing else.
pub proof fn law_first_occurrence_is_replaced(
    before: Seq<char>,
    from: Seq<char>,
    after: Seq<char>,
    to: Seq<char>,
)
    requires
        forall|j: int|
            0 <= j < before.len() ==> !from.is_prefix_of(#[trigger] (before + from + after).skip(j)),
    ensures
        replace_first(before + from + after, from, to) == before + to + after,
    decreases before.len(),
{
    let s = before + from + after;
    if before.len() == 0 {
        assert(s =~= from + after);
        assert(from.is_prefix_of(s));
        assert(s.skip(from.len() as int) =~= after);
        assert(to + after =~= before + to + after);
    } else {
        let b = before.skip(1);
        assert(s.skip(0) =~= s);
        assert(!from.is_prefix_of(s));
        assert(s.skip(1) =~= b + from + after);
        assert forall|j: int| 0 <= j < b.len() implies !from.is_prefix_of(
            #[trigger] (b + from + after).skip(j),
        ) by {
            assert(s.skip(1).skip(j) =~= s.skip(j + 1));
        }
        law_first_occurrence_is_replaced(b, from, after, to);
        assert(seq![s[0]] + (b + to + after) =~= before + to + after);
    }
}

/// Where there is no occurrence nothing is replaced.
pub proof fn law_nothing_to_replace(s: Seq<char>, from: Seq<char>, to: Seq<char>)
    requires
        forall|j: int| 0 <= j <= s.len() ==> !from.is_prefix_of(#[trigger] s.skip(j)),
    ensures
        replace_first(s, from, to) == s,
    decreases s.len(),
{
    assert(s.skip(0) =~= s);
    assert(!from.is_prefix_of(s));
    if s.len() > 0 {
        let t = s.skip(1);
        assert forall|j: int| 0 <= j <= t.len() implies !from.is_prefix_of(
            #[trigger] t.skip(j),
        ) by {
            assert(t.skip(j) =~= s.skip(j + 1));
        }
        law_nothing_to_replace(t, from, to);
        assert(seq![s[0]] + t =~= s);
    }
}

/// What was put behind a prefix comes back when the prefix is taken off; a text without the prefix
/// gives nothing.
pub proof fn law_prefix_comes_off(prefix: Seq<char>, rest: Seq<char>, s: Seq<char>)
    ensures
        after_prefix(prefix + rest, prefix) == Some(rest),
        after_prefix(s, prefix) is Some ==> s == prefix + after_prefix(s, prefix)->0,
        after_prefix(s, prefix) is None ==> forall|t: Seq<char>| s != #[trigger] (prefix + t),
{
    let whole = prefix + rest;
    assert(prefix =~= whole.subrange(0, prefix.len() as int));
    assert(whole.skip(prefix.len() as int) =~= rest);
    if prefix.is_prefix_of(s) {
        assert(s =~= prefix + s.skip(prefix.len() as int));
    } else {
        assert forall|t: Seq<char>| s != #[trigger] (prefix + t) by {
            if s == prefix + t {
                assert(prefix =~= s.subrange(0, prefix.len() as int));
            }
        }
    }
}

/// A text is cut at its first `c`: what was before it, without a `c`, and what was behind it come
/// out as they are. A text without a `c` is not cut.
pub proof fn law_text_is_cut_at_the_first(
    before: Seq<char>,
    c: char,
    after: Seq<char>,
)
    requires
        !before.contains(c),
    ensures
        split_at_char(before + seq![c] + after, c) == Some((before, after)),
        split_at_char(before, c) is None,
{
    lemma_split_at_char_is(before, c, after);
    lemma_split_at_char(before, c);
    if let Some((b, a)) = split_at_char(before, c) {
        assert(before[b.len() as int] == c);
    }
}

} // verus!
