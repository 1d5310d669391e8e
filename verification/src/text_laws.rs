//! What holds of every text: how it is trimmed, cut into words, and read from its
//! front.
use vstd::prelude::*;

use crate::text::{
    after_prefix, before_any, is_white, lemma_trim_front, lowered_ascii, trim_back, trim_front,
    trimmed, without_prefix, word_len, words,
};

verus! {

/// Every character is white space.
pub open spec fn all_white(s: Seq<char>) -> bool {
    forall|i: int| 0 <= i < s.len() ==> is_white(#[trigger] s[i])
}

/// No character is white space.
pub open spec fn none_white(s: Seq<char>) -> bool {
    forall|i: int| 0 <= i < s.len() ==> !is_white(#[trigger] s[i])
}

/// Spaces, tabs and line ends are white space; letters and digits are not.
pub proof fn white_space_is_blank(c: char)
    ensures
        is_white(' '),
        is_white('\n'),
        is_white('\t'),
        is_white('\r'),
        'a' <= c <= 'z' || 'A' <= c <= 'Z' || '0' <= c <= '9' || c == '_' || c == '.' ==> !is_white(
            c,
        ),
{
}

proof fn lemma_front(front: Seq<char>, s: Seq<char>)
    requires
        all_white(front),
        s.len() > 0 ==> !is_white(s[0]),
    ensures
        trim_front(front + s) == s,
    decreases front.len(),
{
    if front.len() == 0 {
        assert(front + s =~= s);
    } else {
        let rest = front.drop_first();
        assert forall|i: int| 0 <= i < rest.len() implies is_white(#[trigger] rest[i]) by {
            assert(rest[i] == front[i + 1]);
        }
        lemma_front(rest, s);
        assert((front + s)[0] == front[0]);
        assert((front + s).drop_first() =~= rest + s);
    }
}

proof fn lemma_back(s: Seq<char>, back: Seq<char>)
    requires
        all_white(back),
        s.len() > 0 ==> !is_white(s.last()),
    ensures
        trim_back(s + back) == s,
    decreases back.len(),
{
    if back.len() == 0 {
        assert(s + back =~= s);
    } else {
        lemma_back(s, back.drop_last());
        assert((s + back).last() == back[back.len() - 1]);
        assert((s + back).drop_last() =~= s + back.drop_last());
    }
}

/// Trimming takes the white space off both ends, and nothing else.
pub proof fn trimming_takes_the_blank_ends(front: Seq<char>, s: Seq<char>, back: Seq<char>)
    requires
        all_white(front),
        all_white(back),
        s.len() > 0 ==> !is_white(s[0]) && !is_white(s.last()),
    ensures
        trimmed(front + s + back) == s,
{
    if s.len() > 0 {
        assert(front + s + back =~= front + (s + back));
        assert((s + back)[0] == s[0]);
        lemma_front(front, s + back);
        lemma_back(s, back);
    } else {
        let none = Seq::<char>::empty();
        let blank = front + s + back;
        assert forall|i: int| 0 <= i < blank.len() implies is_white(#[trigger] blank[i]) by {
            if i < front.len() {
                assert(blank[i] == front[i]);
            } else {
                assert(blank[i] == back[i - front.len()]);
            }
        }
        assert(blank + none =~= blank);
        lemma_front(blank, none);
        assert(s =~= none);
    }
}

proof fn lemma_word(word: Seq<char>, rest: Seq<char>)
    requires
        none_white(word),
        rest.len() > 0 ==> is_white(rest[0]),
    ensures
        word_len(word + rest) == word.len(),
    decreases word.len(),
{
    if word.len() == 0 {
        assert(word + rest =~= rest);
    } else {
        let less = word.drop_first();
        assert forall|i: int| 0 <= i < less.len() implies !is_white(#[trigger] less[i]) by {
            assert(less[i] == word[i + 1]);
        }
        lemma_word(less, rest);
        assert((word + rest)[0] == word[0]);
        assert((word + rest).drop_first() =~= less + rest);
    }
}

proof fn lemma_words_front(front: Seq<char>, s: Seq<char>)
    requires
        all_white(front),
    ensures
        trim_front(front + s) == trim_front(s),
    decreases front.len(),
{
    if front.len() == 0 {
        assert(front + s =~= s);
    } else {
        let rest = front.drop_first();
        assert forall|i: int| 0 <= i < rest.len() implies is_white(#[trigger] rest[i]) by {
            assert(rest[i] == front[i + 1]);
        }
        lemma_words_front(rest, s);
        assert((front + s)[0] == front[0]);
        assert((front + s).drop_first() =~= rest + s);
    }
}

/// A text is cut into what stands between its white space: white space before a
/// word is skipped, and a word ends where white space begins.
pub proof fn words_stand_between_white_space(
    blank: Seq<char>,
    word: Seq<char>,
    c: char,
    rest: Seq<char>,
)
    requires
        all_white(blank),
        none_white(word),
        word.len() > 0,
        is_white(c),
    ensures
        words(blank).len() == 0,
        words(blank + word) == seq![word],
        words(blank + word + (seq![c] + rest)) == seq![word] + words(rest),
{
    let none = Seq::<char>::empty();
    assert(blank + none =~= blank);
    lemma_front(blank, none);
    assert(word + none =~= word);
    lemma_front(blank, word);
    lemma_word(word, none);
    assert(word.take(word.len() as int) =~= word);
    assert(word.skip(word.len() as int) =~= none);
    reveal_with_fuel(words, 2);
    assert(words(none) =~= Seq::empty());
    assert(words(blank + word) =~= seq![word]);
    let tail = seq![c] + rest;
    let whole = blank + word + tail;
    assert(whole =~= blank + (word + tail));
    assert((word + tail)[0] == word[0]);
    lemma_front(blank, word + tail);
    lemma_word(word, tail);
    assert((word + tail).take(word.len() as int) =~= word);
    assert((word + tail).skip(word.len() as int) =~= tail);
    lemma_words_front(seq![c], rest);
    lemma_trim_front(tail);
    assert(words(tail) == words(rest));
}

/// Lowering turns capital letters into small ones, in place, and leaves every
/// other character as it is.
pub proof fn lowering_changes_capitals_alone(s: Seq<char>, i: int)
    requires
        0 <= i < s.len(),
    ensures
        lowered_ascii(s).len() == s.len(),
        'A' <= s[i] <= 'Z' ==> lowered_ascii(s)[i] as int == s[i] as int + 32,
        !('A' <= s[i] <= 'Z') ==> lowered_ascii(s)[i] == s[i],
{
}

/// What follows a prefix is the rest of the text, and a text that does not begin
/// with it is left alone.
pub proof fn prefixes_are_taken_off_once(prefix: Seq<char>, rest: Seq<char>, other: Seq<char>)
    ensures
        after_prefix(prefix + rest, prefix) == Some(rest),
        without_prefix(prefix + rest, prefix) == rest,
        !prefix.is_prefix_of(other) ==> after_prefix(other, prefix) is None && without_prefix(
            other,
            prefix,
        ) == other,
{
    let whole = prefix + rest;
    assert(whole.subrange(0, prefix.len() as int) =~= prefix);
    assert(whole.skip(prefix.len() as int) =~= rest);
}

/// A text is read up to the first of the characters that end it.
pub proof fn texts_are_read_up_to_a_stop(
    front: Seq<char>,
    stop: char,
    rest: Seq<char>,
    stops: Seq<char>,
)
    requires
        forall|i: int| 0 <= i < front.len() ==> !stops.contains(#[trigger] front[i]),
        stops.contains(stop),
    ensures
        before_any(front + (seq![stop] + rest), stops) == front,
        before_any(front, stops) == front,
    decreases front.len(),
{
    let whole = front + (seq![stop] + rest);
    if front.len() == 0 {
        assert(whole[0] == stop);
        assert(front =~= Seq::empty());
    } else {
        let less = front.drop_first();
        assert forall|i: int| 0 <= i < less.len() implies !stops.contains(#[trigger] less[i]) by {
            assert(less[i] == front[i + 1]);
        }
        texts_are_read_up_to_a_stop(less, stop, rest, stops);
        assert(whole[0] == front[0]);
        assert(whole.drop_first() =~= less + (seq![stop] + rest));
        assert(seq![front[0]] + less =~= front);
    }
}

} // verus!
