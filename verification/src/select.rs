//! Choosing a passage to type: a contiguous window of words from the
//! normalized source text, joined back together with single spaces.

use rand::Rng;
use vstd::prelude::*;

use crate::text::{
    all_good_words, chars_of, count_words_spec, join_words, lemma_count_join, lemma_join_push,
    lemma_words_shape, normalize, normalize_spec, split_words, string_of, views_of, words_spec,
};

verus! {

/// Why a passage could not be selected.
#[derive(Debug, Clone, Copy, PartialEq, Eq, Structural)]
pub enum SelectError {
    /// The source text holds fewer words than were requested.
    NotEnoughWords,
}

/// Relies on rand::Rng::gen_range over the range 0..=bound: the sampled
/// value lies in the range, which is never empty.
#[verifier::external_body]
fn random_index_upto(bound: usize) -> (r: usize)
    ensures
        r <= bound,
{
    rand::thread_rng().gen_range(0..=bound)
}

/// The words of the normalized form of a source text.
pub open spec fn source_words(source: Seq<char>) -> Seq<Seq<char>> {
    words_spec(normalize_spec(source))
}

/// The passage beginning at word `start` of the normalized source: the
/// requested number of consecutive words, joined by single spaces. It holds
/// exactly `word_count` words.
pub fn select_passage_at(source: &str, word_count: usize, start: usize) -> (r: String)
    requires
        start + word_count <= source_words(source@).len(),
    ensures
        r@ == join_words(source_words(source@).subrange(start as int, start + word_count)),
        count_words_spec(r@) == word_count,
        word_count > 0 ==> r@.len() > 0 && !crate::text::is_space_char(r@[0]),
    {
    let normalized = normalize(source);
    let chars = chars_of(normalized.as_str());
    let words = split_words(&chars);
    let ghost wviews = views_of(words@);
    proof {
        assert(wviews == source_words(source@));
    }
    let words_len = words.len();
    let mut out: Vec<char> = Vec::new();
    let mut j: usize = 0;
    proof {
        assert(wviews.subrange(start as int, start as int) =~= Seq::<Seq<char>>::empty());
    }
    while j < word_count
        invariant
            j <= word_count,
            start + word_count <= wviews.len(),
            wviews == views_of(words@),
            wviews.len() == words@.len(),
            words@.len() == words_len,
            out@ == join_words(wviews.subrange(start as int, start + j)),
        decreases word_count - j,
    {
        let ghost sub_j = wviews.subrange(start as int, start + j);
        let w = &words[start + j];
        proof {
            assert(w@ == wviews[start + j]);
            assert(sub_j.len() == j);
        }
        if j > 0 {
            out.push(' ');
        }
        let ghost base = out@;
        let mut t: usize = 0;
        proof {
            assert(w@.take(0) =~= Seq::<char>::empty());
            assert(base + w@.take(0) =~= base);
        }
        while t < w.len()
            invariant
                t <= w@.len(),
                out@ == base + w@.take(t as int),
            decreases w@.len() - t,
        {
            out.push(w[t]);
            proof {
                assert(w@.take(t as int).push(w@[t as int]) =~= w@.take(t as int + 1));
                assert((base + w@.take(t as int)).push(w@[t as int]) =~= base + w@.take(
                    t as int + 1,
                ));
            }
            t = t + 1;
        }
        proof {
            assert(w@.take(w@.len() as int) =~= w@);
            lemma_join_push(sub_j, wviews[start + j]);
            assert(sub_j.push(wviews[start + j]) =~= wviews.subrange(start as int, start + j + 1));
            if j > 0 {
                assert(out@ == (join_words(sub_j) + seq![' ']) + w@);
                assert((join_words(sub_j) + seq![' ']) + w@ =~= join_words(sub_j) + seq![' '] + w@);
            } else {
                assert(out@ == join_words(sub_j) + w@);
                assert(join_words(sub_j) + w@ =~= join_words(sub_j) + Seq::<char>::empty() + w@);
            }
        }
        j = j + 1;
    }
    proof {
        let sub = wviews.subrange(start as int, start + word_count);
        lemma_words_shape(normalize_spec(source@), Seq::empty());
        assert forall|i: int| 0 <= i < sub.len() implies (#[trigger] sub[i]).len() > 0
            && crate::text::no_space(sub[i]) by {
            assert(sub[i] == wviews[start + i]);
        }
        assert(all_good_words(sub));
        lemma_count_join(sub);
        if word_count > 0 {
            crate::text::lemma_join_first(sub);
        }
    }
    string_of(out)
}

/// Select a passage of `word_count` words starting at a randomly chosen
/// position in the normalized source text. Selection succeeds exactly when
/// the source holds at least `word_count` words; the result is then some
/// contiguous window of that many words, joined by single spaces.
pub fn select_passage(source: &str, word_count: usize) -> (r: Result<String, SelectError>)
    ensures
        (r is Ok) <==> word_count <= source_words(source@).len(),
        match r {
            Ok(p) => count_words_spec(p@) == word_count && (word_count > 0 ==> p@.len() > 0
                && !crate::text::is_space_char(p@[0])) && exists|start: int|
                0 <= start && start + word_count <= source_words(source@).len() && p@
                    == join_words(
                    #[trigger] source_words(source@).subrange(start, start + word_count),
                ),
            Err(e) => e == SelectError::NotEnoughWords,
        },
{
    let normalized = normalize(source);
    let chars = chars_of(normalized.as_str());
    let words = split_words(&chars);
    proof {
        assert(views_of(words@).len() == words@.len());
    }
    if word_count > words.len() {
        return Err(SelectError::NotEnoughWords);
    }
    let bound = words.len() - word_count;
    let start = random_index_upto(bound);
    let p = select_passage_at(source, word_count, start);
    proof {
        assert(0 <= start as int && start + word_count <= source_words(source@).len() && p@
            == join_words(source_words(source@).subrange(start as int, start + word_count)));
    }
    Ok(p)
}

} // verus!
