//! The lexical tests of the rules: whether a text holds a word, and whether
//! a guard covers a value. The tests look at text only; they do not weigh
//! what a condition means.

use crate::text::{
    contains, contains_str, contains_text, lemma_texts_push, slice_of, texts, to_upper, upper,
    upper_of,
};
use vstd::prelude::*;

verus! {

/// Whether a text holds the given word, whatever the case of the text. The
/// word is written in upper case.
pub open spec fn mentions(s: Seq<char>, word: Seq<char>) -> bool {
    contains(upper(s), word)
}

/// Whether a text holds one of the given words.
pub open spec fn contains_any(s: Seq<char>, words: Seq<Seq<char>>) -> bool {
    exists|i: int| 0 <= i < words.len() && contains(s, #[trigger] words[i])
}

/// Whether a guard covers a value: its text, in upper case, holds the value
/// and one of the comparison words. The value and the words are written in
/// upper case.
pub open spec fn guard_covers(guard: Seq<char>, value: Seq<char>, words: Seq<Seq<char>>) -> bool {
    contains(upper(guard), value) && contains_any(upper(guard), words)
}

/// Whether one of the guards covers the value.
pub open spec fn covered(guards: Seq<Seq<char>>, value: Seq<char>, words: Seq<Seq<char>>) -> bool {
    exists|i: int| 0 <= i < guards.len() && guard_covers(#[trigger] guards[i], value, words)
}

/// Whether a text holds one of the given words.
pub fn holds_any(s: &Vec<char>, words: &Vec<Vec<char>>) -> (r: bool)
    ensures
        r == contains_any(s@, texts(words@)),
{
    let mut i: usize = 0;
    while i < words.len()
        invariant
            i <= words.len(),
            forall|j: int| 0 <= j < i ==> !contains(s@, #[trigger] texts(words@)[j]),
        decreases words.len() - i,
    {
        assert(texts(words@)[i as int] == words@[i as int]@);
        if contains_text(s, &words[i]) {
            return true;
        }
        i += 1;
    }
    false
}

/// Whether one of the guards covers the value.
pub fn is_covered(guards: &Vec<Vec<char>>, value: &Vec<char>, words: &Vec<Vec<char>>) -> (r: bool)
    ensures
        r == covered(texts(guards@), value@, texts(words@)),
{
    let mut i: usize = 0;
    while i < guards.len()
        invariant
            i <= guards.len(),
            forall|j: int|
                0 <= j < i ==> !guard_covers(#[trigger] texts(guards@)[j], value@, texts(words@)),
        decreases guards.len() - i,
    {
        assert(texts(guards@)[i as int] == guards@[i as int]@);
        let g = to_upper(&guards[i]);
        if contains_text(&g, value) && holds_any(&g, words) {
            return true;
        }
        i += 1;
    }
    false
}

/// The guards with one more, for the branches of a conditional.
pub fn with_guard(guards: &Vec<Vec<char>>, guard: Vec<char>) -> (r: Vec<Vec<char>>)
    ensures
        texts(r@) == texts(guards@).push(guard@),
{
    let mut r: Vec<Vec<char>> = Vec::new();
    let mut i: usize = 0;
    while i < guards.len()
        invariant
            i <= guards.len(),
            texts(r@) == texts(guards@).take(i as int),
        decreases guards.len() - i,
    {
        let g = slice_of(&guards[i], 0, guards[i].len());
        assert(g@ =~= guards@[i as int]@);
        proof {
            lemma_texts_push(r@, g);
        }
        r.push(g);
        i += 1;
        assert(texts(r@) =~= texts(guards@).take(i as int));
    }
    proof {
        lemma_texts_push(r@, guard);
        assert(texts(guards@).take(guards.len() as int) =~= texts(guards@));
    }
    r.push(guard);
    r
}

/// Whether a name, in any case, holds the given upper-case word.
pub fn name_mentions(name: &str, word: &str) -> (r: bool)
    ensures
        r == mentions(name@, word@),
{
    contains_str(&upper_of(name), word)
}

/// Whether a name suggests a value that comes from outside: it holds `HMI`
/// or `DB`, in any case.
pub open spec fn is_external(name: Seq<char>) -> bool {
    mentions(name, "HMI"@) || mentions(name, "DB"@)
}

/// Whether a name suggests a value that comes from outside.
pub fn names_external(name: &Vec<char>) -> (r: bool)
    ensures
        r == is_external(name@),
{
    let up = to_upper(name);
    contains_str(&up, "HMI") || contains_str(&up, "DB")
}

/// Whether a name, in any case, holds one of the given upper-case words.
pub open spec fn mentions_any(name: Seq<char>, words: Seq<Seq<char>>) -> bool {
    contains_any(upper(name), words)
}

/// Whether a name, in any case, holds one of the given upper-case words.
pub fn name_mentions_any(name: &str, words: &Vec<Vec<char>>) -> (r: bool)
    ensures
        r == mentions_any(name@, texts(words@)),
{
    holds_any(&upper_of(name), words)
}

} // verus!
