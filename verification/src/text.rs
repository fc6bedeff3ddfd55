//! Normalization of raw source text: runs of whitespace collapse to a single
//! ASCII space, and curly quotation marks become their straight ASCII
//! equivalents. All other characters pass through unchanged.

use vstd::prelude::*;
use vstd::std_specs::iter::IteratorSpec;

verus! {

/// The Unicode characters with the `White_Space` property, which is the set
/// that `str::split_whitespace` splits on.
pub open spec fn is_space_char(c: char) -> bool {
    ||| c == ' '
    ||| c == '\t'
    ||| c == '\n'
    ||| c == '\u{0B}'
    ||| c == '\u{0C}'
    ||| c == '\r'
    ||| c == '\u{85}'
    ||| c == '\u{A0}'
    ||| c == '\u{1680}'
    ||| c == '\u{2000}'
    ||| c == '\u{2001}'
    ||| c == '\u{2002}'
    ||| c == '\u{2003}'
    ||| c == '\u{2004}'
    ||| c == '\u{2005}'
    ||| c == '\u{2006}'
    ||| c == '\u{2007}'
    ||| c == '\u{2008}'
    ||| c == '\u{2009}'
    ||| c == '\u{200A}'
    ||| c == '\u{2028}'
    ||| c == '\u{2029}'
    ||| c == '\u{202F}'
    ||| c == '\u{205F}'
    ||| c == '\u{3000}'
}

/// Executable test for `is_space_char`.
pub fn is_space(c: char) -> (b: bool)
    ensures
        b == is_space_char(c),
{
    c == ' ' || c == '\t' || c == '\n' || c == '\u{0B}' || c == '\u{0C}' || c == '\r'
        || c == '\u{85}' || c == '\u{A0}' || c == '\u{1680}' || c == '\u{2000}' || c == '\u{2001}'
        || c == '\u{2002}' || c == '\u{2003}' || c == '\u{2004}' || c == '\u{2005}'
        || c == '\u{2006}' || c == '\u{2007}' || c == '\u{2008}' || c == '\u{2009}'
        || c == '\u{200A}' || c == '\u{2028}' || c == '\u{2029}' || c == '\u{202F}'
        || c == '\u{205F}' || c == '\u{3000}'
}

/// How a single retained character is rewritten: any whitespace becomes an
/// ASCII space, curly double quotes become `"`, curly single quotes and the
/// grave accent become `'`, and everything else is unchanged.
pub open spec fn norm_char(c: char) -> char {
    if is_space_char(c) {
        ' '
    } else if c == '\u{201C}' || c == '\u{201D}' {
        '"'
    } else if c == '\u{2018}' || c == '\u{2019}' || c == '`' {
        '\''
    } else {
        c
    }
}

/// Executable form of `norm_char`.
pub fn map_char(c: char) -> (r: char)
    ensures
        r == norm_char(c),
{
    if is_space(c) {
        ' '
    } else if c == '\u{201C}' || c == '\u{201D}' {
        '"'
    } else if c == '\u{2018}' || c == '\u{2019}' || c == '`' {
        '\''
    } else {
        c
    }
}

/// Normalization of the characters of `s`, scanning left to right. `prev_ws`
/// says whether the previous raw character was whitespace; a whitespace
/// character directly after another one is dropped, every other character is
/// kept as `norm_char` rewrites it. The scan starts as if a space preceded
/// the text, so leading whitespace collapses too.
pub open spec fn normalize_rec(s: Seq<char>, prev_ws: bool) -> Seq<char>
    decreases s.len(),
{
    if s.len() == 0 {
        Seq::empty()
    } else {
        let c = s[0];
        let rest = normalize_rec(s.drop_first(), is_space_char(c));
        if prev_ws && is_space_char(c) {
            rest
        } else {
            seq![norm_char(c)] + rest
        }
    }
}

/// The normalized form of a text.
pub open spec fn normalize_spec(s: Seq<char>) -> Seq<char> {
    normalize_rec(s, true)
}

/// Collect the characters of `s` into a vector, one by one.
pub(crate) fn chars_of(s: &str) -> (r: Vec<char>)
    ensures
        r@ == s@,
{
    let mut it = s.chars();
    let mut r: Vec<char> = Vec::new();
    loop
        invariant
            r@ + IteratorSpec::remaining(&it) == s@,
            it.obeys_prophetic_iter_laws(),
            IteratorSpec::decrease(&it) is Some,
        ensures
            r@ == s@,
        decreases IteratorSpec::decrease(&it)->0,
    {
        let ghost pre = IteratorSpec::remaining(&it);
        match it.next() {
            Some(c) => {
                r.push(c);
                proof {
                    assert(pre.len() > 0);
                    assert(r@ + IteratorSpec::remaining(&it) =~= s@);
                }
            },
            None => {
                proof {
                    assert(pre.len() == 0);
                    assert(r@ + pre =~= r@);
                    assert(r@ =~= s@);
                }
                break ;
            },
        }
    }
    r
}

/// Relies on String's FromIterator<char> impl: collecting characters builds
/// the string holding exactly those characters in order.
#[verifier::external_body]
pub(crate) fn string_of(v: Vec<char>) -> (r: String)
    ensures
        r@ == v@,
{
    v.into_iter().collect()
}

/// Collapse whitespace runs to single ASCII spaces and straighten curly
/// quotation marks, exactly as `normalize_spec` describes.
pub fn normalize(s: &str) -> (r: String)
    ensures
        r@ == normalize_spec(s@),
{
    let chars = chars_of(s);
    let n = chars.len();
    let mut out: Vec<char> = Vec::new();
    let mut prev_ws: bool = true;
    let mut i: usize = 0;
    proof {
        assert(chars@.skip(0) =~= chars@);
        assert(out@ + normalize_rec(chars@, true) =~= normalize_rec(chars@, true));
    }
    while i < n
        invariant
            n == chars@.len(),
            i <= n,
            normalize_spec(chars@) == out@ + normalize_rec(chars@.skip(i as int), prev_ws),
        decreases n - i,
    {
        let c = chars[i];
        proof {
            assert(chars@.skip(i as int)[0] == chars@[i as int]);
            assert(chars@.skip(i as int).drop_first() =~= chars@.skip(i as int + 1));
        }
        if !(prev_ws && is_space(c)) {
            out.push(map_char(c));
        }
        prev_ws = is_space(c);
        i = i + 1;
    }
    proof {
        assert(chars@.skip(n as int) =~= Seq::<char>::empty());
        assert(out@ + Seq::<char>::empty() =~= out@);
    }
    string_of(out)
}

/// The shape of normalized text: every character is a fixed point of
/// `norm_char`, no two adjacent characters are whitespace, and when the scan
/// began after whitespace the text does not begin with whitespace.
pub proof fn lemma_norm_shape(s: Seq<char>, prev_ws: bool)
    ensures
        forall|i: int|
            0 <= i < normalize_rec(s, prev_ws).len() ==> norm_char(
                #[trigger] normalize_rec(s, prev_ws)[i],
            ) == normalize_rec(s, prev_ws)[i],
        forall|i: int|
            0 <= i < normalize_rec(s, prev_ws).len() - 1 ==> !(is_space_char(
                #[trigger] normalize_rec(s, prev_ws)[i],
            ) && is_space_char(normalize_rec(s, prev_ws)[i + 1])),
        prev_ws && normalize_rec(s, prev_ws).len() > 0 ==> !is_space_char(
            normalize_rec(s, prev_ws)[0],
        ),
    decreases s.len(),
{
    if s.len() == 0 {
    } else {
        let c = s[0];
        let rest = normalize_rec(s.drop_first(), is_space_char(c));
        lemma_norm_shape(s.drop_first(), is_space_char(c));
        if prev_ws && is_space_char(c) {
        } else {
            let r = normalize_rec(s, prev_ws);
            assert(r =~= seq![norm_char(c)] + rest);
            assert(is_space_char(norm_char(c)) == is_space_char(c));
            assert forall|i: int| 0 <= i < r.len() implies norm_char(#[trigger] r[i]) == r[i] by {
                if i == 0 {
                    assert(norm_char(norm_char(c)) == norm_char(c));
                } else {
                    assert(r[i] == rest[i - 1]);
                }
            }
            assert forall|i: int| 0 <= i < r.len() - 1 implies !(is_space_char(#[trigger] r[i])
                && is_space_char(r[i + 1])) by {
                if i == 0 {
                    assert(r[1] == rest[0]);
                } else {
                    assert(r[i] == rest[i - 1]);
                    assert(r[i + 1] == rest[i]);
                }
            }
        }
    }
}

/// Text already in normalized shape passes through normalization unchanged.
pub proof fn lemma_norm_fixed(s: Seq<char>, prev_ws: bool)
    requires
        forall|i: int| 0 <= i < s.len() ==> norm_char(#[trigger] s[i]) == s[i],
        forall|i: int|
            0 <= i < s.len() - 1 ==> !(is_space_char(#[trigger] s[i]) && is_space_char(s[i + 1])),
        prev_ws && s.len() > 0 ==> !is_space_char(s[0]),
    ensures
        normalize_rec(s, prev_ws) == s,
    decreases s.len(),
{
    if s.len() == 0 {
        assert(normalize_rec(s, prev_ws) =~= s);
    } else {
        let c = s[0];
        assert(norm_char(s[0]) == s[0]);
        assert forall|i: int|
            0 <= i < s.drop_first().len() implies norm_char(#[trigger] s.drop_first()[i])
            == s.drop_first()[i] by {
            assert(s.drop_first()[i] == s[i + 1]);
        }
        assert forall|i: int|
            0 <= i < s.drop_first().len() - 1 implies !(is_space_char(#[trigger] s.drop_first()[i])
            && is_space_char(s.drop_first()[i + 1])) by {
            assert(s.drop_first()[i] == s[i + 1]);
            assert(s.drop_first()[i + 1] == s[i + 2]);
        }
        if s.len() > 1 {
            assert(!(is_space_char(s[0int]) && is_space_char(s[0int + 1])));
            assert(s.drop_first()[0] == s[1]);
        }
        lemma_norm_fixed(s.drop_first(), is_space_char(c));
        assert(normalize_rec(s, prev_ws) =~= seq![norm_char(c)] + normalize_rec(
            s.drop_first(),
            is_space_char(c),
        ));
        assert(seq![norm_char(c)] + s.drop_first() =~= s);
    }
}

/// Normalization is idempotent: normalizing a second time changes nothing.
pub proof fn lemma_normalize_idempotent(s: Seq<char>)
    ensures
        normalize_spec(normalize_spec(s)) == normalize_spec(s),
{
    lemma_norm_shape(s, true);
    lemma_norm_fixed(normalize_spec(s), true);
}

/// The words of `s`: maximal runs of non-whitespace characters, in order,
/// with empty runs discarded. `cur` accumulates the run in progress.
pub open spec fn words_rec(s: Seq<char>, cur: Seq<char>) -> Seq<Seq<char>>
    decreases s.len(),
{
    if s.len() == 0 {
        if cur.len() == 0 {
            Seq::empty()
        } else {
            seq![cur]
        }
    } else if is_space_char(s[0]) {
        if cur.len() == 0 {
            words_rec(s.drop_first(), Seq::empty())
        } else {
            seq![cur] + words_rec(s.drop_first(), Seq::empty())
        }
    } else {
        words_rec(s.drop_first(), cur.push(s[0]))
    }
}

/// The whitespace-delimited words of a text.
pub open spec fn words_spec(s: Seq<char>) -> Seq<Seq<char>> {
    words_rec(s, Seq::empty())
}

/// The words of a text joined by single ASCII spaces.
pub open spec fn join_words(ws: Seq<Seq<char>>) -> Seq<char>
    decreases ws.len(),
{
    if ws.len() == 0 {
        Seq::empty()
    } else if ws.len() == 1 {
        ws[0]
    } else {
        ws[0] + seq![' '] + join_words(ws.drop_first())
    }
}

/// How many words begin in `s` when the character before `s` was whitespace
/// iff `prev_ws`: a word begins at each non-whitespace character that follows
/// whitespace.
pub open spec fn count_words_rec(s: Seq<char>, prev_ws: bool) -> nat
    decreases s.len(),
{
    if s.len() == 0 {
        0
    } else {
        (if prev_ws && !is_space_char(s[0]) {
            1nat
        } else {
            0nat
        }) + count_words_rec(s.drop_first(), is_space_char(s[0]))
    }
}

/// The number of whitespace-delimited words in a text.
pub open spec fn count_words_spec(s: Seq<char>) -> nat {
    count_words_rec(s, true)
}

/// Count the whitespace-delimited words of `s`.
pub fn word_count(s: &str) -> (r: usize)
    ensures
        r == count_words_spec(s@),
{
    let chars = chars_of(s);
    let n = chars.len();
    let mut count: usize = 0;
    let mut prev_ws: bool = true;
    let mut i: usize = 0;
    proof {
        assert(chars@.skip(0) =~= chars@);
    }
    while i < n
        invariant
            n == chars@.len(),
            i <= n,
            count <= i,
            count + count_words_rec(chars@.skip(i as int), prev_ws) == count_words_spec(chars@),
        decreases n - i,
    {
        let c = chars[i];
        proof {
            assert(chars@.skip(i as int)[0] == chars@[i as int]);
            assert(chars@.skip(i as int).drop_first() =~= chars@.skip(i as int + 1));
        }
        if prev_ws && !is_space(c) {
            count = count + 1;
        }
        prev_ws = is_space(c);
        i = i + 1;
    }
    proof {
        assert(chars@.skip(n as int) =~= Seq::<char>::empty());
    }
    count
}

/// A whitespace-free character run.
pub open spec fn no_space(w: Seq<char>) -> bool {
    forall|j: int| 0 <= j < w.len() ==> !is_space_char(#[trigger] w[j])
}

/// A sequence of words fit to be joined: each nonempty and whitespace-free.
pub open spec fn all_good_words(ws: Seq<Seq<char>>) -> bool {
    forall|i: int| 0 <= i < ws.len() ==> (#[trigger] ws[i]).len() > 0 && no_space(ws[i])
}

/// Every word that splitting yields is nonempty and free of whitespace,
/// provided the run in progress is free of whitespace.
pub proof fn lemma_words_shape(s: Seq<char>, cur: Seq<char>)
    requires
        no_space(cur),
    ensures
        all_good_words(words_rec(s, cur)),
    decreases s.len(),
{
    if s.len() == 0 {
        if cur.len() > 0 {
            assert(words_rec(s, cur) =~= seq![cur]);
            assert(words_rec(s, cur)[0] == cur);
        }
    } else if is_space_char(s[0]) {
        lemma_words_shape(s.drop_first(), Seq::empty());
        let rest = words_rec(s.drop_first(), Seq::empty());
        if cur.len() > 0 {
            let r = words_rec(s, cur);
            assert(r =~= seq![cur] + rest);
            assert forall|i: int| 0 <= i < r.len() implies (#[trigger] r[i]).len() > 0 && no_space(
                r[i],
            ) by {
                if i == 0 {
                    assert(r[0] == cur);
                } else {
                    assert(r[i] == rest[i - 1]);
                }
            }
        }
    } else {
        assert forall|j: int| 0 <= j < cur.push(s[0]).len() implies !is_space_char(
            #[trigger] cur.push(s[0])[j],
        ) by {
            if j < cur.len() {
                assert(cur.push(s[0])[j] == cur[j]);
            }
        }
        lemma_words_shape(s.drop_first(), cur.push(s[0]));
        assert(words_rec(s, cur) == words_rec(s.drop_first(), cur.push(s[0])));
    }
}

/// Counting words distributes over concatenation: the right part is counted
/// as beginning after the last character of the left part.
pub proof fn lemma_count_append(a: Seq<char>, b: Seq<char>, prev_ws: bool)
    ensures
        count_words_rec(a + b, prev_ws) == count_words_rec(a, prev_ws) + count_words_rec(
            b,
            if a.len() == 0 {
                prev_ws
            } else {
                is_space_char(a.last())
            },
        ),
    decreases a.len(),
{
    if a.len() == 0 {
        assert(a + b =~= b);
    } else {
        assert((a + b)[0] == a[0]);
        assert((a + b).drop_first() =~= a.drop_first() + b);
        lemma_count_append(a.drop_first(), b, is_space_char(a[0]));
        if a.len() == 1 {
            assert(a.drop_first().len() == 0);
            assert(a.last() == a[0]);
        } else {
            assert(a.drop_first().last() == a.last());
        }
    }
}

/// A run of non-whitespace characters counts as one word when it follows
/// whitespace and as part of an earlier word otherwise.
pub proof fn lemma_count_no_space(w: Seq<char>, prev_ws: bool)
    requires
        no_space(w),
    ensures
        count_words_rec(w, prev_ws) == if prev_ws && w.len() > 0 {
            1nat
        } else {
            0nat
        },
    decreases w.len(),
{
    if w.len() == 0 {
    } else {
        assert forall|j: int| 0 <= j < w.drop_first().len() implies !is_space_char(
            #[trigger] w.drop_first()[j],
        ) by {
            assert(w.drop_first()[j] == w[j + 1]);
        }
        lemma_count_no_space(w.drop_first(), false);
    }
}

/// Joining nonempty whitespace-free words with single spaces yields a text
/// with exactly that many words.
pub proof fn lemma_count_join(ws: Seq<Seq<char>>)
    requires
        all_good_words(ws),
    ensures
        count_words_spec(join_words(ws)) == ws.len(),
    decreases ws.len(),
{
    if ws.len() == 0 {
    } else if ws.len() == 1 {
        lemma_count_no_space(ws[0], true);
    } else {
        let a = ws[0];
        let tail = join_words(ws.drop_first());
        let b = seq![' '] + tail;
        assert(join_words(ws) =~= a + b);
        lemma_count_append(a, b, true);
        lemma_count_no_space(a, true);
        assert(!is_space_char(a.last()));
        assert(b[0] == ' ');
        assert(b.drop_first() =~= tail);
        assert forall|i: int| 0 <= i < ws.drop_first().len() implies (#[trigger] ws.drop_first()[
        i]).len() > 0 && no_space(ws.drop_first()[i]) by {
            assert(ws.drop_first()[i] == ws[i + 1]);
        }
        lemma_count_join(ws.drop_first());
        assert(count_words_rec(b, false) == count_words_rec(tail, true));
    }
}

/// A join of at least one nonempty whitespace-free word begins with a
/// non-whitespace character.
pub proof fn lemma_join_first(ws: Seq<Seq<char>>)
    requires
        all_good_words(ws),
        ws.len() > 0,
    ensures
        join_words(ws).len() > 0,
        !is_space_char(join_words(ws)[0]),
{
    assert(ws[0].len() > 0 && no_space(ws[0]));
    if ws.len() == 1 {
        assert(join_words(ws) == ws[0]);
    } else {
        assert(join_words(ws)[0] == ws[0][0]);
    }
}

/// Any nonempty prefix of a text that begins with a non-whitespace character
/// holds at least one word.
pub proof fn lemma_prefix_has_word(s: Seq<char>, n: int)
    requires
        1 <= n <= s.len(),
        !is_space_char(s[0]),
    ensures
        count_words_spec(s.take(n)) >= 1,
{
    let p = s.take(n);
    assert(p[0] == s[0]);
    assert(count_words_rec(p, true) == 1 + count_words_rec(p.drop_first(), is_space_char(p[0])));
}

/// Appending one more word to a join adds a separating space exactly when
/// some word is already present.
pub proof fn lemma_join_push(ws: Seq<Seq<char>>, w: Seq<char>)
    ensures
        join_words(ws.push(w)) == join_words(ws) + (if ws.len() == 0 {
            Seq::<char>::empty()
        } else {
            seq![' ']
        }) + w,
    decreases ws.len(),
{
    if ws.len() == 0 {
        assert(ws.push(w).len() == 1);
        assert(ws.push(w)[0] == w);
        assert(join_words(ws) + Seq::<char>::empty() + w =~= w);
    } else if ws.len() == 1 {
        let p = ws.push(w);
        assert(p.len() == 2);
        assert(p[0] == ws[0]);
        assert(p.drop_first() =~= seq![w]);
        assert(join_words(seq![w]) == w);
        assert(ws[0] + seq![' '] + w =~= join_words(ws) + seq![' '] + w);
    } else {
        let p = ws.push(w);
        assert(p[0] == ws[0]);
        assert(p.drop_first() =~= ws.drop_first().push(w));
        lemma_join_push(ws.drop_first(), w);
        assert(ws.drop_first().len() > 0);
        assert(ws[0] + seq![' '] + (join_words(ws.drop_first()) + seq![' '] + w) =~= (ws[0]
            + seq![' '] + join_words(ws.drop_first())) + seq![' '] + w);
    }
}

/// The views of a vector of character vectors.
pub open spec fn views_of(ws: Seq<Vec<char>>) -> Seq<Seq<char>> {
    ws.map_values(|w: Vec<char>| w@)
}

/// Split `chars` into its whitespace-delimited words.
pub fn split_words(chars: &Vec<char>) -> (r: Vec<Vec<char>>)
    ensures
        views_of(r@) == words_spec(chars@),
{
    let n = chars.len();
    let mut out: Vec<Vec<char>> = Vec::new();
    let mut cur: Vec<char> = Vec::new();
    let mut i: usize = 0;
    proof {
        assert(chars@.skip(0) =~= chars@);
        assert(views_of(out@) =~~= Seq::<Seq<char>>::empty());
        assert(Seq::<Seq<char>>::empty() + words_rec(chars@, Seq::empty()) =~~= words_rec(
            chars@,
            Seq::empty(),
        ));
    }
    while i < n
        invariant
            n == chars@.len(),
            i <= n,
            views_of(out@) + words_rec(chars@.skip(i as int), cur@) == words_spec(chars@),
        decreases n - i,
    {
        let c = chars[i];
        proof {
            assert(chars@.skip(i as int)[0] == chars@[i as int]);
            assert(chars@.skip(i as int).drop_first() =~= chars@.skip(i as int + 1));
        }
        if is_space(c) {
            if cur.len() > 0 {
                let ghost old_out = out@;
                let ghost cur_snap = cur;
                out.push(cur);
                cur = Vec::new();
                proof {
                    assert(views_of(old_out.push(cur_snap)) =~~= views_of(old_out).push(
                        cur_snap@,
                    ));
                    assert((views_of(old_out) + (seq![cur_snap@] + words_rec(
                        chars@.skip(i as int + 1),
                        Seq::empty(),
                    ))) =~~= (views_of(old_out).push(cur_snap@) + words_rec(
                        chars@.skip(i as int + 1),
                        Seq::empty(),
                    )));
                    assert(cur@ =~= Seq::<char>::empty());
                }
            } else {
                proof {
                    assert(cur@ =~= Seq::<char>::empty());
                }
            }
        } else {
            cur.push(c);
        }
        i = i + 1;
    }
    proof {
        assert(chars@.skip(n as int) =~= Seq::<char>::empty());
    }
    if cur.len() > 0 {
        let ghost old_out = out@;
        let ghost cur_snap = cur;
        out.push(cur);
        proof {
            assert(views_of(old_out.push(cur_snap)) =~~= views_of(old_out).push(cur_snap@));
            assert((views_of(old_out) + seq![cur_snap@]) =~~= (views_of(old_out).push(cur_snap@)));
        }
    } else {
        proof {
            assert(views_of(out@) + Seq::<Seq<char>>::empty() =~~= views_of(out@));
        }
    }
    out
}

} // verus!
