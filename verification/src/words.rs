//! Words of a text and how often each occurs.

use vstd::prelude::*;
use crate::text::{chars_of, is_space, is_whitespace, string_of};

verus! {

/// Where the word that ends `text` begins: the length of `text` when it is
/// empty or ends in white space.
pub open spec fn last_word_start(text: Seq<char>) -> int
    decreases text.len(),
{
    if text.len() == 0 {
        0
    } else if is_space(text.last()) {
        text.len() as int
    } else {
        last_word_start(text.drop_last())
    }
}

/// The words of `text`, in order: its longest runs of characters that are
/// not white space.
pub open spec fn words_of(text: Seq<char>) -> Seq<Seq<char>>
    decreases text.len(),
{
    if text.len() == 0 {
        Seq::empty()
    } else if is_space(text.last()) {
        words_of(text.drop_last())
    } else {
        let start = last_word_start(text);
        if 0 <= start < text.len() {
            words_of(text.take(start)).push(text.subrange(start, text.len() as int))
        } else {
            Seq::empty()
        }
    }
}

/// How often `word` occurs among `words`.
pub open spec fn occurrences(words: Seq<Seq<char>>, word: Seq<char>) -> nat
    decreases words.len(),
{
    if words.len() == 0 {
        0
    } else {
        occurrences(words.drop_last(), word) + if words.last() == word {
            1nat
        } else {
            0nat
        }
    }
}

/// Whether `word`, with `count`, is the most frequent of `words`: it
/// occurs `count` times, no word occurs more often, and every word that
/// comes before its first occurrence occurs less often.
pub open spec fn is_most_frequent(words: Seq<Seq<char>>, word: Seq<char>, count: nat) -> bool {
    &&& words.contains(word)
    &&& count == occurrences(words, word)
    &&& forall|j: int| 0 <= j < words.len() ==> occurrences(words, #[trigger] words[j]) <= count
    &&& forall|j: int|
        0 <= j < words.len() && !words.take(j + 1).contains(word) ==> occurrences(
            words,
            #[trigger] words[j],
        ) < count
}

/// Whether `word` occurs in `words` at `at` and nowhere before.
pub open spec fn first_at(words: Seq<Seq<char>>, word: Seq<char>, at: int) -> bool {
    &&& 0 <= at < words.len()
    &&& words[at] == word
    &&& forall|p: int| 0 <= p < at ==> #[trigger] words[p] != word
}

/// A run of characters that are not white space, with white space or the
/// start of the text before it, is the last word of the text up to its end.
proof fn lemma_last_word(text: Seq<char>, start: int, end: int)
    requires
        0 <= start < end <= text.len(),
        start == 0 || is_space(text[start - 1]),
        forall|i: int| start <= i < end ==> !is_space(#[trigger] text[i]),
    ensures
        last_word_start(text.take(end)) == start,
        words_of(text.take(end)) == words_of(text.take(start)).push(text.subrange(start, end)),
    decreases end - start,
{
    let upto = text.take(end);
    let shorter = text.take(end - 1);
    assert(upto.last() == text[end - 1]);
    assert(!is_space(upto.last()));
    assert(upto.drop_last() == shorter);
    assert(last_word_start(upto) == last_word_start(shorter));
    if end - 1 == start {
        if start == 0 {
            assert(shorter.len() == 0);
            assert(last_word_start(shorter) == 0);
        } else {
            assert(shorter.last() == text[start - 1]);
            assert(last_word_start(shorter) == start);
        }
    } else {
        lemma_last_word(text, start, end - 1);
    }
    assert(last_word_start(upto) == start);
    assert(upto.take(start) == text.take(start));
    assert(upto.subrange(start, upto.len() as int) == text.subrange(start, end));
}

/// Counting in a list that grew by one word.
proof fn lemma_occurrences_push(words: Seq<Seq<char>>, last: Seq<char>, word: Seq<char>)
    ensures
        occurrences(words.push(last), word) == occurrences(words, word) + if last == word {
            1nat
        } else {
            0nat
        },
{
    assert(words.push(last).drop_last() == words);
}

/// A word occurs at most as often as there are words, and at least once
/// when it is one of them.
proof fn lemma_occurrences_bounds(words: Seq<Seq<char>>, word: Seq<char>)
    ensures
        occurrences(words, word) <= words.len(),
        words.contains(word) ==> occurrences(words, word) >= 1,
        !words.contains(word) ==> occurrences(words, word) == 0,
    decreases words.len(),
{
    if words.len() > 0 {
        lemma_occurrences_bounds(words.drop_last(), word);
        if words.contains(word) && words.last() != word {
            let i = choose|i: int| 0 <= i < words.len() && words[i] == word;
            assert(words.drop_last()[i] == word);
        }
        if words.drop_last().contains(word) {
            let i = choose|i: int| 0 <= i < words.drop_last().len() && words.drop_last()[i] == word;
            assert(words[i] == word);
        }
    }
}

/// The words of `text`, in order.
pub fn split_words(text: &str) -> (words: Vec<String>)
    ensures
        words.deep_view() == words_of(text@),
{
    let chars = chars_of(text);
    let mut words: Vec<String> = Vec::new();
    let mut i: usize = 0;
    assert(chars@.take(0) == Seq::<char>::empty());
    assert(words.deep_view() == Seq::<Seq<char>>::empty());
    while i < chars.len()
        invariant
            i <= chars.len(),
            chars@ == text@,
            i == 0 || i == chars.len() || is_space(chars@[i - 1]) || is_space(chars@[i as int]),
            words.deep_view() == words_of(chars@.take(i as int)),
        decreases chars.len() - i,
    {
        if is_whitespace(chars[i]) {
            proof {
                assert(chars@.take(i + 1).drop_last() == chars@.take(i as int));
                assert(chars@.take(i + 1).last() == chars@[i as int]);
            }
            i += 1;
        } else {
            let start = i;
            while i < chars.len() && !is_whitespace(chars[i])
                invariant
                    start <= i <= chars.len(),
                    start < chars.len(),
                    !is_space(chars@[start as int]),
                    forall|j: int| start <= j < i ==> !is_space(#[trigger] chars@[j]),
                decreases chars.len() - i,
            {
                i += 1;
            }
            let word = string_of(&chars, start, i);
            proof {
                lemma_last_word(chars@, start as int, i as int);
            }
            let ghost before = words.deep_view();
            words.push(word);
            assert(words.deep_view() == before.push(word@));
        }
    }
    assert(chars@.take(chars.len() as int) == chars@);
    words
}

/// Whether `word` is one of `list`.
spec fn listed(list: Seq<String>, word: Seq<char>) -> bool {
    exists|j: int| 0 <= j < list.len() && #[trigger] list[j]@ == word
}

/// Where `word` stands in `list`, if it does.
fn position_of(list: &Vec<String>, word: &String) -> (position: Option<usize>)
    ensures
        position matches Some(at) ==> at < list.len() && list[at as int]@ == word@,
        position is None ==> forall|j: int| 0 <= j < list.len() ==> #[trigger] list[j]@ != word@,
{
    let mut at: usize = 0;
    while at < list.len()
        invariant
            at <= list.len(),
            forall|j: int| 0 <= j < at ==> #[trigger] list[j]@ != word@,
        decreases list.len() - at,
    {
        if list[at] == *word {
            return Some(at);
        }
        at += 1;
    }
    None
}

/// The word of `text` that occurs most often, and how often it occurs.
/// Among words that occur equally often, the one that comes first in the
/// text is chosen.
///
/// The text must hold a word.
pub fn most_frequent_word(text: &str) -> (found: (String, usize))
    requires
        words_of(text@).len() > 0,
    ensures
        is_most_frequent(words_of(text@), found.0@, found.1 as nat),
{
    let words = split_words(text);
    let ghost ws = words.deep_view();
    let mut unique_words: Vec<String> = Vec::new();
    let mut counts: Vec<usize> = Vec::new();
    let ghost mut firsts: Seq<int> = Seq::empty();
    let mut i: usize = 0;
    assert(ws.len() == words.len());
    while i < words.len()
        invariant
            i <= words.len(),
            ws == words.deep_view(),
            ws.len() == words.len(),
            unique_words.len() == counts.len(),
            unique_words.len() == firsts.len(),
            forall|j: int|
                0 <= j < unique_words.len() ==> {
                    &&& first_at(ws, #[trigger] unique_words[j]@, firsts[j])
                    &&& firsts[j] < i
                    &&& 1 <= counts[j] <= i
                    &&& counts[j] == occurrences(ws.take(i as int), unique_words[j]@)
                },
            forall|a: int, b: int|
                0 <= a < b < firsts.len() ==> #[trigger] firsts[a] < #[trigger] firsts[b],
            forall|p: int| 0 <= p < i ==> listed(unique_words@, #[trigger] ws[p]),
        decreases words.len() - i,
    {
        let ghost word = ws[i as int];
        let ghost seen = ws.take(i as int);
        let ghost old_unique = unique_words@;
        let ghost old_counts = counts@;
        proof {
            assert(words[i as int]@ == word);
            assert(ws.take(i + 1) == seen.push(word));
            assert forall|j: int| 0 <= j < unique_words.len() implies occurrences(
                ws.take(i + 1),
                #[trigger] unique_words[j]@,
            ) == occurrences(seen, unique_words[j]@) + if word == unique_words[j]@ {
                1nat
            } else {
                0nat
            } by {
                lemma_occurrences_push(seen, word, unique_words[j]@);
            }
        }
        match position_of(&unique_words, &words[i]) {
            Some(at) => {
                proof {
                    assert forall|j: int|
                        0 <= j < unique_words.len() && j != at implies #[trigger] unique_words[j]@
                        != word by {
                        if unique_words[j]@ == word {
                            assert(first_at(ws, unique_words[j]@, firsts[j]));
                            assert(first_at(ws, unique_words[at as int]@, firsts[at as int]));
                            assert(ws[firsts[j]] == word);
                            assert(ws[firsts[at as int]] == word);
                            if j < at {
                                assert(firsts[j] < firsts[at as int]);
                            } else {
                                assert(firsts[at as int] < firsts[j]);
                            }
                        }
                    }
                }
                let bumped = counts[at] + 1;
                counts.set(at, bumped);
                proof {
                    assert(listed(unique_words@, ws[i as int])) by {
                        assert(unique_words@[at as int]@ == ws[i as int]);
                    }
                }
            },
            None => {
                proof {
                    if seen.contains(word) {
                        let p = choose|p: int| 0 <= p < seen.len() && seen[p] == word;
                        assert(ws[p] == word);
                        assert(listed(unique_words@, ws[p]));
                        let j = choose|j: int|
                            0 <= j < unique_words.len() && #[trigger] unique_words@[j]@ == ws[p];
                        assert(unique_words[j]@ == word);
                    }
                    lemma_occurrences_bounds(seen, word);
                    lemma_occurrences_push(seen, word, word);
                    assert forall|p: int| 0 <= p < i implies #[trigger] ws[p] != word by {
                        if ws[p] == word {
                            assert(seen[p] == word);
                        }
                    }
                    assert(first_at(ws, word, i as int));
                }
                unique_words.push(words[i].clone());
                counts.push(1);
                proof {
                    let old_firsts = firsts;
                    firsts = firsts.push(i as int);
                    assert forall|a: int, b: int| 0 <= a < b < firsts.len() implies #[trigger] firsts[a]
                        < #[trigger] firsts[b] by {
                        if b == old_firsts.len() {
                            assert(first_at(ws, old_unique[a]@, old_firsts[a]));
                            assert(old_firsts[a] < i);
                        } else {
                            assert(old_firsts[a] < old_firsts[b]);
                        }
                    }
                    assert forall|j: int| 0 <= j < unique_words.len() implies {
                        &&& first_at(ws, #[trigger] unique_words[j]@, firsts[j])
                        &&& firsts[j] < i + 1
                        &&& 1 <= counts[j] <= i + 1
                        &&& counts[j] == occurrences(ws.take(i + 1), unique_words[j]@)
                    } by {
                        if j < old_unique.len() {
                            assert(unique_words[j] == old_unique[j]);
                            assert(counts[j] == old_counts[j]);
                        }
                    }
                    assert forall|p: int| 0 <= p < i + 1 implies listed(
                        unique_words@,
                        #[trigger] ws[p],
                    ) by {
                        if p == i {
                            assert(unique_words@[old_unique.len() as int]@ == ws[p]);
                        } else {
                            assert(listed(old_unique, ws[p]));
                            let j = choose|j: int|
                                0 <= j < old_unique.len() && #[trigger] old_unique[j]@ == ws[p];
                            assert(unique_words@[j]@ == ws[p]);
                        }
                    }
                }
            },
        }
        i += 1;
    }
    proof {
        assert(ws.take(words.len() as int) == ws);
        assert(listed(unique_words@, ws[0]));
        assert forall|j: int| 0 <= j < counts.len() implies #[trigger] counts[j] >= 1 by {
            assert(first_at(ws, unique_words[j]@, firsts[j]));
        }
    }
    let mut max_index: usize = 0;
    let mut max_count: usize = 0;
    let mut k: usize = 0;
    while k < counts.len()
        invariant
            k <= counts.len(),
            counts.len() >= 1,
            forall|j: int| 0 <= j < counts.len() ==> #[trigger] counts[j] >= 1,
            k == 0 ==> max_index == 0 && max_count == 0,
            k > 0 ==> max_index < k && max_count == counts[max_index as int],
            forall|j: int| 0 <= j < k ==> #[trigger] counts[j] <= max_count,
            forall|j: int| 0 <= j < max_index ==> #[trigger] counts[j] < max_count,
        decreases counts.len() - k,
    {
        if counts[k] > max_count {
            max_count = counts[k];
            max_index = k;
        }
        k += 1;
    }
    let winner = unique_words[max_index].clone();
    proof {
        let m = max_index as int;
        let best = winner@;
        assert(first_at(ws, best, firsts[m]));
        assert(ws.contains(best));
        assert forall|j: int| 0 <= j < ws.len() implies occurrences(ws, #[trigger] ws[j])
            <= max_count by {
            assert(listed(unique_words@, ws[j]));
            let a = choose|a: int| 0 <= a < unique_words.len() && #[trigger] unique_words@[a]@ == ws[j];
            assert(counts[a] <= max_count);
        }
        assert forall|j: int| 0 <= j < ws.len() && !ws.take(j + 1).contains(best) implies occurrences(
            ws,
            #[trigger] ws[j],
        ) < max_count by {
            assert(listed(unique_words@, ws[j]));
            let a = choose|a: int| 0 <= a < unique_words.len() && #[trigger] unique_words@[a]@ == ws[j];
            assert(first_at(ws, unique_words[a]@, firsts[a]));
            if firsts[m] <= j {
                assert(ws.take(j + 1)[firsts[m]] == best);
            }
            if firsts[a] > j {
                assert(ws[j] != unique_words[a]@);
            }
            if a > m {
                assert(firsts[m] < firsts[a]);
            }
            if a == m {
                assert(firsts[a] == firsts[m]);
            }
            assert(a < m);
            assert(counts[a] < max_count);
        }
    }
    (winner, max_count)
}

} // verus!
