use vstd::prelude::*;
use vstd::string::StringExecFns;

use crate::order::chars_of;

verus! {

/// The texts that a vector of strings holds.
pub open spec fn texts(v: Seq<String>) -> Seq<Seq<char>> {
    v.map_values(|s: String| s@)
}

/// The characters that `str::split_ascii_whitespace` splits at:
/// space, tab, line feed, form feed and carriage return.
pub open spec fn is_ascii_space(c: char) -> bool {
    c == ' ' || c == '\t' || c == '\n' || c == '\x0C' || c == '\r'
}

/// The characters of Unicode's White_Space property, which `char::is_whitespace`
/// tests and `str::trim` removes.
pub open spec fn is_unicode_space(c: char) -> bool {
    ||| '\t' <= c <= '\r'
    ||| c == ' '
    ||| c == '\u{85}'
    ||| c == '\u{a0}'
    ||| c == '\u{1680}'
    ||| '\u{2000}' <= c <= '\u{200a}'
    ||| c == '\u{2028}'
    ||| c == '\u{2029}'
    ||| c == '\u{202f}'
    ||| c == '\u{205f}'
    ||| c == '\u{3000}'
}

/// The words of `s` that follow the partial word `cur`: maximal runs of
/// characters other than ASCII white space, in order.
pub open spec fn words_after(s: Seq<char>, cur: Seq<char>) -> Seq<Seq<char>>
    decreases s.len(),
{
    if s.len() == 0 {
        if cur.len() == 0 {
            seq![]
        } else {
            seq![cur]
        }
    } else if is_ascii_space(s[0]) {
        if cur.len() == 0 {
            words_after(s.drop_first(), cur)
        } else {
            seq![cur] + words_after(s.drop_first(), seq![])
        }
    } else {
        words_after(s.drop_first(), cur.push(s[0]))
    }
}

/// The words of `s`, split at ASCII white space.
pub open spec fn ascii_words(s: Seq<char>) -> Seq<Seq<char>> {
    words_after(s, seq![])
}

/// `w` without its leading Unicode white space.
pub open spec fn trim_start(w: Seq<char>) -> Seq<char>
    decreases w.len(),
{
    if w.len() > 0 && is_unicode_space(w[0]) {
        trim_start(w.drop_first())
    } else {
        w
    }
}

/// `w` without its trailing Unicode white space.
pub open spec fn trim_end(w: Seq<char>) -> Seq<char>
    decreases w.len(),
{
    if w.len() > 0 && is_unicode_space(w.last()) {
        trim_end(w.drop_last())
    } else {
        w
    }
}

/// `w` without white space at either end, as `str::trim` gives it.
pub open spec fn trimmed(w: Seq<char>) -> Seq<char> {
    trim_end(trim_start(w))
}

/// The paths that the contents of a data file list: its words, each trimmed.
pub open spec fn listed_paths(contents: Seq<char>) -> Seq<Seq<char>> {
    ascii_words(contents).map_values(|w: Seq<char>| trimmed(w))
}

/// The contents of a data file that lists `paths`: the paths joined by line feeds.
pub open spec fn joined_lines(paths: Seq<Seq<char>>) -> Seq<char>
    decreases paths.len(),
{
    if paths.len() == 0 {
        seq![]
    } else if paths.len() == 1 {
        paths[0]
    } else {
        joined_lines(paths.drop_last()) + seq!['\n'] + paths.last()
    }
}

/// Whether `c` has Unicode's White_Space property.
pub fn is_unicode_space_char(c: char) -> (r: bool)
    ensures
        r == is_unicode_space(c),
{
    ('\t' <= c && c <= '\r') || c == ' ' || c == '\u{85}' || c == '\u{a0}' || c == '\u{1680}'
        || ('\u{2000}' <= c && c <= '\u{200a}') || c == '\u{2028}' || c == '\u{2029}'
        || c == '\u{202f}' || c == '\u{205f}' || c == '\u{3000}'
}

/// Appends one character to a string: `String::push`.
#[verifier::external_body]
pub(crate) fn push_char(s: &mut String, c: char)
    ensures
        final(s)@ == old(s)@.push(c),
{
    s.push(c);
}

proof fn lemma_trim_start_skip(w: Seq<char>, a: int)
    requires
        0 <= a <= w.len(),
        forall|k: int| 0 <= k < a ==> is_unicode_space(#[trigger] w[k]),
        a == w.len() || !is_unicode_space(w[a]),
    ensures
        trim_start(w) == w.skip(a),
    decreases a,
{
    if a > 0 {
        assert(is_unicode_space(w[0]));
        assert forall|k: int| 0 <= k < a - 1 implies is_unicode_space(#[trigger] w.drop_first()[k]) by {
            assert(w.drop_first()[k] == w[k + 1]);
        }
        lemma_trim_start_skip(w.drop_first(), a - 1);
        assert(w.drop_first().skip(a - 1) =~= w.skip(a));
    } else {
        assert(w.skip(0) =~= w);
    }
}

proof fn lemma_trim_end_take(w: Seq<char>, b: int)
    requires
        0 <= b <= w.len(),
        forall|k: int| b <= k < w.len() ==> is_unicode_space(#[trigger] w[k]),
        b == 0 || !is_unicode_space(w[b - 1]),
    ensures
        trim_end(w) == w.take(b),
    decreases w.len() - b,
{
    if b < w.len() {
        assert(is_unicode_space(w.last()));
        assert forall|k: int| b <= k < w.drop_last().len() implies is_unicode_space(
            #[trigger] w.drop_last()[k],
        ) by {
            assert(w.drop_last()[k] == w[k]);
        }
        lemma_trim_end_take(w.drop_last(), b);
        assert(w.drop_last().take(b) =~= w.take(b));
    } else {
        assert(w.take(b) =~= w);
    }
}

proof fn first_solid(w: Seq<char>, a: int) -> (r: int)
    requires
        0 <= a <= w.len(),
        forall|k: int| 0 <= k < a ==> is_unicode_space(#[trigger] w[k]),
    ensures
        a <= r <= w.len(),
        forall|k: int| 0 <= k < r ==> is_unicode_space(#[trigger] w[k]),
        r == w.len() || !is_unicode_space(w[r]),
    decreases w.len() - a,
{
    if a < w.len() && is_unicode_space(w[a]) {
        first_solid(w, a + 1)
    } else {
        a
    }
}

proof fn last_solid(w: Seq<char>, a: int, b: int) -> (r: int)
    requires
        0 <= a <= b <= w.len(),
        forall|k: int| b <= k < w.len() ==> is_unicode_space(#[trigger] w[k]),
    ensures
        a <= r <= b,
        forall|k: int| r <= k < w.len() ==> is_unicode_space(#[trigger] w[k]),
        r == a || !is_unicode_space(w[r - 1]),
    decreases b,
{
    if b > a && is_unicode_space(w[b - 1]) {
        last_solid(w, a, b - 1)
    } else {
        b
    }
}

/// Trimming removes white space at the ends and nothing else: what is left
/// is a stretch of `w` that neither starts nor ends with white space, and
/// everything before and after it is white space.
pub proof fn law_trim_removes_end_space(w: Seq<char>)
    ensures
        exists|a: int, b: int|
            {
                &&& 0 <= a <= b <= w.len()
                &&& trimmed(w) == w.subrange(a, b)
                &&& forall|k: int| 0 <= k < a ==> is_unicode_space(#[trigger] w[k])
                &&& forall|k: int| b <= k < w.len() ==> is_unicode_space(#[trigger] w[k])
                &&& a < b ==> !is_unicode_space(w[a]) && !is_unicode_space(w[b - 1])
            },
{
    let a = first_solid(w, 0);
    lemma_trim_start_skip(w, a);
    let t = w.skip(a);
    let b = last_solid(w, a, w.len() as int);
    assert forall|k: int| b - a <= k < t.len() implies is_unicode_space(#[trigger] t[k]) by {
        assert(t[k] == w[k + a]);
    }
    if b > a {
        assert(t[b - a - 1] == w[b - 1]);
    }
    lemma_trim_end_take(t, b - a);
    assert(t.take(b - a) =~= w.subrange(a, b));
}

/// The text of `w` without white space at either end, as a string.
fn trimmed_word(w: &Vec<char>) -> (r: String)
    ensures
        r@ == trimmed(w@),
{
    let n = w.len();
    let mut a: usize = 0;
    while a < n && is_unicode_space_char(w[a])
        invariant
            a <= n,
            n == w@.len(),
            forall|k: int| 0 <= k < a ==> is_unicode_space(#[trigger] w@[k]),
        decreases n - a,
    {
        a = a + 1;
    }
    proof {
        lemma_trim_start_skip(w@, a as int);
    }
    let ghost t = w@.skip(a as int);
    let mut b: usize = n;
    while b > a && is_unicode_space_char(w[b - 1])
        invariant
            a <= b <= n,
            n == w@.len(),
            t == w@.skip(a as int),
            forall|k: int| b <= k < n ==> is_unicode_space(#[trigger] w@[k]),
        decreases b,
    {
        b = b - 1;
    }
    proof {
        assert forall|k: int| b - a <= k < t.len() implies is_unicode_space(#[trigger] t[k]) by {
            assert(t[k] == w@[k + a]);
        }
        if b > a {
            assert(t[b - a - 1] == w@[b - 1]);
        }
        lemma_trim_end_take(t, b - a);
    }
    let mut r = String::new();
    let mut i: usize = a;
    while i < b
        invariant
            a <= i <= b <= n,
            n == w@.len(),
            r@ == w@.subrange(a as int, i as int),
        decreases b - i,
    {
        push_char(&mut r, w[i]);
        assert(w@.subrange(a as int, i + 1) =~= w@.subrange(a as int, i as int).push(w@[i as int]));
        i = i + 1;
    }
    assert(t.take(b - a) =~= w@.subrange(a as int, b as int));
    r
}

/// The paths that the contents of a data file list.
///
/// The contents are split at ASCII white space, and each word loses the
/// Unicode white space at its ends (a word made only of such white space
/// stays, as an empty path).
pub fn parse_locked_files(contents: &str) -> (paths: Vec<String>)
    ensures
        texts(paths@) == listed_paths(contents@),
{
    let s = chars_of(contents);
    let n = s.len();
    let mut paths: Vec<String> = Vec::new();
    let mut cur: Vec<char> = Vec::new();
    let ghost words: Seq<Seq<char>> = seq![];
    let mut i: usize = 0;
    assert(s@.skip(0) =~= s@);
    while i < n
        invariant
            i <= n,
            n == s@.len(),
            s@ == contents@,
            ascii_words(s@) == words + words_after(s@.skip(i as int), cur@),
            texts(paths@) == words.map_values(|w: Seq<char>| trimmed(w)),
        decreases n - i,
    {
        let c = s[i];
        let ghost rest = s@.skip(i as int);
        assert(rest[0] == c);
        assert(rest.drop_first() =~= s@.skip(i + 1));
        if c == ' ' || c == '\t' || c == '\n' || c == '\x0C' || c == '\r' {
            if cur.len() > 0 {
                let p = trimmed_word(&cur);
                proof {
                    assert(words_after(rest, cur@) == seq![cur@] + words_after(
                        s@.skip(i + 1),
                        seq![],
                    ));
                    assert(words + words_after(rest, cur@) =~= words.push(cur@) + words_after(
                        s@.skip(i + 1),
                        seq![],
                    ));
                    words = words.push(cur@);
                }
                let ghost old_paths = paths@;
                paths.push(p);
                cur = Vec::new();
                assert(texts(paths@) =~= texts(old_paths).push(p@));
                assert(texts(paths@) =~= words.map_values(|w: Seq<char>| trimmed(w)));
            }
        } else {
            cur.push(c);
        }
        i = i + 1;
    }
    if cur.len() > 0 {
        let p = trimmed_word(&cur);
        proof {
            assert(words_after(s@.skip(n as int), cur@) == seq![cur@]);
            words = words.push(cur@);
        }
        let ghost old_paths = paths@;
        paths.push(p);
        assert(texts(paths@) =~= texts(old_paths).push(p@));
        assert(texts(paths@) =~= words.map_values(|w: Seq<char>| trimmed(w)));
    } else {
        assert(words_after(s@.skip(n as int), cur@) == Seq::<Seq<char>>::empty());
    }
    assert(ascii_words(s@) =~= words);
    paths
}

/// The contents of the data file that lists `paths`: the paths joined by
/// line feeds, with no line feed after the last.
pub fn serialize_locked_files(paths: &Vec<String>) -> (contents: String)
    ensures
        contents@ == joined_lines(texts(paths@)),
{
    let mut contents = String::new();
    let n = paths.len();
    let mut i: usize = 0;
    while i < n
        invariant
            i <= n,
            n == paths@.len(),
            contents@ == joined_lines(texts(paths@).take(i as int)),
        decreases n - i,
    {
        let ghost before = texts(paths@).take(i as int);
        assert(texts(paths@).take(i + 1).drop_last() =~= before);
        if i > 0 {
            proof {
                reveal_strlit("\n");
            }
            contents.append("\n");
        }
        contents.append(paths[i].as_str());
        proof {
            if i == 0 {
                assert(contents@ =~= texts(paths@).take(1)[0]);
            } else {
                assert(contents@ =~= joined_lines(before) + seq!['\n'] + paths@[i as int]@);
            }
        }
        i = i + 1;
    }
    assert(texts(paths@).take(n as int) =~= texts(paths@));
    contents
}

} // verus!
