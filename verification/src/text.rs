//! Text as a sequence of characters: the operations the rest of the crate
//! builds names and messages from.
use vstd::prelude::*;
use vstd::slice::slice_subrange;

verus! {

/// The views of a sequence of values, in order.
pub open spec fn views<T: View>(items: Seq<T>) -> Seq<T::V> {
    Seq::new(items.len(), |i: int| items[i]@)
}

/// The view of a borrowed text that may be missing.
pub open spec fn opt_str(text: Option<&str>) -> Option<Seq<char>> {
    match text {
        Some(inner) => Some(inner@),
        None => None,
    }
}

/// The view of an optional value.
pub open spec fn opt_view<T: View>(item: Option<T>) -> Option<T::V> {
    match item {
        Some(value) => Some(value@),
        None => None,
    }
}

pub broadcast proof fn lemma_views_push<T: View>(items: Seq<T>, item: T)
    ensures
        #[trigger] views(items.push(item)) == views(items).push(item@),
{
    assert(views(items.push(item)) =~= views(items).push(item@));
}

/// `String::push` appends one character.
pub assume_specification[ std::string::String::push ](text: &mut std::string::String, c: char)
    ensures
        final(text)@ == old(text)@.push(c),
;

/// The characters of a text.
pub fn chars_of(text: &str) -> (chars: Vec<char>)
    ensures
        chars@ == text@,
{
    let mut chars: Vec<char> = Vec::new();
    for c in it: text.chars()
        invariant
            chars@ == it.seq().take(it.index()),
            it.seq() == text@,
    {
        assert(it.seq().take(it.index() + 1) =~= it.seq().take(it.index()).push(c));
        chars.push(c);
    }
    assert(text@.take(text@.len() as int) =~= text@);
    chars
}

/// The text made of the given characters.
pub fn text_of(chars: &[char]) -> (text: String)
    ensures
        text@ == chars@,
{
    let mut text = String::new();
    let mut i: usize = 0;
    while i < chars.len()
        invariant
            i <= chars.len(),
            text@ == chars@.take(i as int),
        decreases chars.len() - i,
    {
        assert(chars@.take(i + 1) =~= chars@.take(i as int).push(chars@[i as int]));
        text.push(chars[i]);
        i = i + 1;
    }
    assert(chars@.take(chars@.len() as int) =~= chars@);
    text
}

/// `str::eq` compares the characters of two texts.
pub assume_specification[ <str as PartialEq>::eq ](a: &str, b: &str) -> (r: bool)
    ensures
        r == (a@ == b@),
;

/// Whether two texts hold the same characters.
pub fn same(a: &str, b: &str) -> (r: bool)
    ensures
        r == (a@ == b@),
{
    *a == *b
}

/// `needle` stands in `hay` at position `at`.
pub open spec fn occurs_at(hay: Seq<char>, needle: Seq<char>, at: int) -> bool {
    &&& 0 <= at
    &&& at + needle.len() <= hay.len()
    &&& hay.subrange(at, at + needle.len()) == needle
}

/// `needle` stands somewhere in `hay`.
pub open spec fn occurs_in(hay: Seq<char>, needle: Seq<char>) -> bool {
    exists|at: int| occurs_at(hay, needle, at)
}

/// Whether `needle` stands in `hay` at position `at`.
pub fn stands_at(hay: &[char], needle: &[char], at: usize) -> (r: bool)
    ensures
        r == occurs_at(hay@, needle@, at as int),
{
    if at > hay.len() || needle.len() > hay.len() - at {
        return false;
    }
    let mut i: usize = 0;
    while i < needle.len()
        invariant
            i <= needle.len(),
            at + needle.len() <= hay.len(),
            forall|k: int| 0 <= k < i ==> hay@[at + k] == needle@[k],
        decreases needle.len() - i,
    {
        if hay[at + i] != needle[i] {
            assert(hay@.subrange(at as int, at + needle@.len())[i as int] != needle@[i as int]);
            return false;
        }
        i = i + 1;
    }
    assert(hay@.subrange(at as int, at + needle@.len()) =~= needle@);
    true
}

/// The first position at or after `from` at which `needle` stands in `hay`.
pub fn find_from(hay: &[char], needle: &[char], from: usize) -> (r: Option<usize>)
    ensures
        match r {
            Some(at) => {
                &&& from <= at
                &&& occurs_at(hay@, needle@, at as int)
                &&& forall|k: int| from <= k < at ==> !occurs_at(hay@, needle@, k)
            },
            None => forall|k: int| from <= k ==> !occurs_at(hay@, needle@, k),
        },
{
    if needle.len() > hay.len() {
        return None;
    }
    let last: usize = hay.len() - needle.len();
    let mut at: usize = from;
    while at <= last
        invariant
            from <= at,
            last + needle.len() == hay.len(),
            forall|k: int| from <= k < at ==> !occurs_at(hay@, needle@, k),
        decreases last + 1 - at,
    {
        if stands_at(hay, needle, at) {
            return Some(at);
        }
        if at == last {
            return None;
        }
        at = at + 1;
    }
    None
}

/// Whether `needle` stands somewhere in `hay`.
pub fn holds_text(hay: &str, needle: &str) -> (r: bool)
    ensures
        r == occurs_in(hay@, needle@),
{
    let h = chars_of(hay);
    let n = chars_of(needle);
    let found = find_from(&h, &n, 0);
    found.is_some()
}

/// Whether `text` begins with `prefix`.
pub fn begins_with(text: &str, prefix: &str) -> (r: bool)
    ensures
        r == prefix@.is_prefix_of(text@),
{
    let t = chars_of(text);
    let p = chars_of(prefix);
    stands_at(&t, &p, 0)
}

/// Whether `text` ends with `suffix`.
pub fn ends_in(text: &str, suffix: &str) -> (r: bool)
    ensures
        r == suffix@.is_suffix_of(text@),
{
    let t = chars_of(text);
    let s = chars_of(suffix);
    if s.len() > t.len() {
        return false;
    }
    stands_at(&t, &s, t.len() - s.len())
}

/// The decimal digits of a number.
pub open spec fn decimal(n: nat) -> Seq<char>
    decreases n,
{
    if n < 10 {
        seq![digit(n)]
    } else {
        decimal(n / 10).push(digit(n % 10))
    }
}

/// The character of a decimal digit.
pub open spec fn digit(d: nat) -> char {
    ((48 + d) as u8) as char
}

/// The decimal digits of a number.
pub fn decimal_text(n: u64) -> (r: String)
    ensures
        r@ == decimal(n as nat),
    decreases n,
{
    let d: u8 = (n % 10) as u8;
    if n < 10 {
        let mut text = String::new();
        text.push((48 + d) as char);
        assert(text@ =~= seq![digit(n as nat)]);
        text
    } else {
        let mut text = decimal_text(n / 10);
        text.push((48 + d) as char);
        text
    }
}

/// Digits with zeros in front, up to a width.
pub open spec fn zero_padded(digits: Seq<char>, width: nat) -> Seq<char>
    decreases width - digits.len(),
{
    if digits.len() >= width {
        digits
    } else {
        zero_padded(seq!['0'] + digits, width)
    }
}

/// The decimal digits of a number, with zeros in front up to a width.
pub fn padded_text(n: u64, width: usize) -> (r: String)
    ensures
        r@ == zero_padded(decimal(n as nat), width as nat),
{
    let digits = decimal_text(n);
    let mut text = digits;
    let mut len: usize = text.as_str().unicode_len();
    while len < width
        invariant
            len == text@.len(),
            zero_padded(text@, width as nat) == zero_padded(decimal(n as nat), width as nat),
        decreases width - len,
    {
        let mut longer = "0".to_owned();
        proof {
            reveal_strlit("0");
            assert("0"@ =~= seq!['0']);
        }
        longer.append(text.as_str());
        text = longer;
        len = len + 1;
    }
    text
}

/// An ASCII letter in lower case; any other character as it is.
pub open spec fn lower_ascii(c: char) -> char {
    if 'A' <= c <= 'Z' {
        ((c as u8) + 32) as u8 as char
    } else {
        c
    }
}

/// A text with its ASCII letters in lower case.
pub open spec fn lowered_ascii(s: Seq<char>) -> Seq<char> {
    Seq::new(s.len(), |i: int| lower_ascii(s[i]))
}

/// A text with its ASCII letters in lower case.
pub fn to_lower_ascii(text: &str) -> (r: String)
    ensures
        r@ == lowered_ascii(text@),
{
    let chars = chars_of(text);
    let mut lowered = String::new();
    let mut i: usize = 0;
    while i < chars.len()
        invariant
            i <= chars.len(),
            chars@ == text@,
            lowered@ == lowered_ascii(text@).take(i as int),
        decreases chars.len() - i,
    {
        let c = chars[i];
        let l = if 'A' <= c && c <= 'Z' {
            ((c as u8) + 32) as char
        } else {
            c
        };
        lowered.push(l);
        assert(lowered@ =~= lowered_ascii(text@).take(i + 1));
        i = i + 1;
    }
    assert(lowered_ascii(text@).take(text@.len() as int) =~= lowered_ascii(text@));
    lowered
}

/// A text as an optional one: nothing where it is empty.
pub open spec fn unless_empty(s: Seq<char>) -> Option<Seq<char>> {
    if s.len() == 0 {
        None
    } else {
        Some(s)
    }
}

/// A copy of an optional text.
pub fn copy_opt(text: &Option<String>) -> (r: Option<String>)
    ensures
        opt_view(r) == opt_view(*text),
{
    match text {
        Some(inner) => Some(inner.clone()),
        None => None,
    }
}

/// Unicode's `White_Space` property.
pub open spec fn is_white(c: char) -> bool {
    let n = c as u32;
    ||| 9 <= n <= 13
    ||| n == 32
    ||| n == 0x85
    ||| n == 0xa0
    ||| n == 0x1680
    ||| 0x2000 <= n <= 0x200a
    ||| n == 0x2028
    ||| n == 0x2029
    ||| n == 0x202f
    ||| n == 0x205f
    ||| n == 0x3000
}

/// Whether a character is white space.
pub fn white(c: char) -> (r: bool)
    ensures
        r == is_white(c),
{
    let n: u32 = c as u32;
    (9 <= n && n <= 13) || n == 32 || n == 0x85 || n == 0xa0 || n == 0x1680 || (0x2000 <= n && n
        <= 0x200a) || n == 0x2028 || n == 0x2029 || n == 0x202f || n == 0x205f || n == 0x3000
}

/// A text without its leading white space.
pub open spec fn trim_front(s: Seq<char>) -> Seq<char>
    decreases s.len(),
{
    if s.len() > 0 && is_white(s[0]) {
        trim_front(s.drop_first())
    } else {
        s
    }
}

/// A text without its trailing white space.
pub open spec fn trim_back(s: Seq<char>) -> Seq<char>
    decreases s.len(),
{
    if s.len() > 0 && is_white(s.last()) {
        trim_back(s.drop_last())
    } else {
        s
    }
}

/// A text without the white space around it.
pub open spec fn trimmed(s: Seq<char>) -> Seq<char> {
    trim_back(trim_front(s))
}

/// A text without the white space around it.
pub fn trim(text: &str) -> (r: String)
    ensures
        r@ == trimmed(text@),
{
    let chars = chars_of(text);
    let mut from: usize = 0;
    assert(chars@.skip(0) =~= text@);
    while from < chars.len() && white(chars[from])
        invariant
            from <= chars.len(),
            trim_front(text@) == trim_front(chars@.skip(from as int)),
        decreases chars.len() - from,
    {
        assert(chars@.skip(from as int).drop_first() =~= chars@.skip(from + 1));
        from = from + 1;
    }
    assert(trim_front(text@) == chars@.skip(from as int));
    let mut to: usize = chars.len();
    assert(chars@.subrange(from as int, to as int) =~= chars@.skip(from as int));
    while from < to && white(chars[to - 1])
        invariant
            from <= to <= chars.len(),
            trimmed(text@) == trim_back(chars@.subrange(from as int, to as int)),
        decreases to,
    {
        assert(chars@.subrange(from as int, to as int).drop_last() =~= chars@.subrange(
            from as int,
            to - 1,
        ));
        to = to - 1;
    }
    text_of(slice_subrange(chars.as_slice(), from, to))
}

/// The length of the run of characters that are not white space at the front.
pub open spec fn word_len(s: Seq<char>) -> nat
    decreases s.len(),
{
    if s.len() > 0 && !is_white(s[0]) {
        word_len(s.drop_first()) + 1
    } else {
        0
    }
}

pub proof fn lemma_word_len(s: Seq<char>)
    ensures
        word_len(s) <= s.len(),
        s.len() > 0 && !is_white(s[0]) ==> word_len(s) > 0,
    decreases s.len(),
{
    if s.len() > 0 && !is_white(s[0]) {
        lemma_word_len(s.drop_first());
    }
}

pub proof fn lemma_trim_front(s: Seq<char>)
    ensures
        trim_front(s).len() <= s.len(),
        trim_front(s).len() > 0 ==> !is_white(trim_front(s)[0]),
    decreases s.len(),
{
    if s.len() > 0 && is_white(s[0]) {
        lemma_trim_front(s.drop_first());
    }
}

/// The words of a text: its longest runs without white space.
pub open spec fn words(s: Seq<char>) -> Seq<Seq<char>>
    decreases s.len(),
{
    let t = trim_front(s);
    if t.len() == 0 {
        Seq::empty()
    } else {
        proof {
            lemma_trim_front(s);
            lemma_word_len(t);
        }
        seq![t.take(word_len(t) as int)] + words(t.skip(word_len(t) as int))
    }
}

/// The words of a text: its longest runs without white space.
pub fn split_words(text: &str) -> (r: Vec<String>)
    ensures
        views(r@) == words(text@),
{
    broadcast use lemma_views_push;

    let chars = chars_of(text);
    let mut found: Vec<String> = Vec::new();
    let mut i: usize = 0;
    assert(chars@.skip(0) =~= text@);
    assert(views(found@) + words(text@) =~= words(text@));
    while i < chars.len()
        invariant
            i <= chars.len(),
            views(found@) + words(chars@.skip(i as int)) == words(text@),
        decreases chars.len() - i,
    {
        if white(chars[i]) {
            proof {
                assert(chars@.skip(i as int).drop_first() =~= chars@.skip(i + 1));
                assert(trim_front(chars@.skip(i as int)) == trim_front(chars@.skip(i + 1)));
                assert(words(chars@.skip(i as int)) =~= words(chars@.skip(i + 1)));
            }
            i = i + 1;
        } else {
            let start: usize = i;
            let ghost rest = chars@.skip(start as int);
            let ghost before = views(found@);
            while i < chars.len() && !white(chars[i])
                invariant
                    start <= i <= chars.len(),
                    rest == chars@.skip(start as int),
                    word_len(rest) == (i - start) + word_len(chars@.skip(i as int)),
                decreases chars.len() - i,
            {
                assert(chars@.skip(i as int).drop_first() =~= chars@.skip(i + 1));
                i = i + 1;
            }
            let word = text_of(slice_subrange(chars.as_slice(), start, i));
            found.push(word);
            proof {
                assert(trim_front(rest) == rest);
                assert(word_len(rest) == i - start);
                lemma_word_len(rest);
                assert(i > start);
                assert(rest.take(i - start) =~= chars@.subrange(start as int, i as int));
                assert(rest.skip(i - start) =~= chars@.skip(i as int));
                assert(words(rest) =~= seq![word@] + words(chars@.skip(i as int)));
                assert(views(found@) + words(chars@.skip(i as int)) =~= before + words(rest));
            }
        }
    }
    assert(chars@.skip(i as int) =~= Seq::empty());
    assert(views(found@) =~= words(text@));
    found
}

/// The parts, with `sep` between each two.
pub open spec fn joined_text(parts: Seq<Seq<char>>, sep: Seq<char>) -> Seq<char>
    decreases parts.len(),
{
    if parts.len() == 0 {
        Seq::empty()
    } else if parts.len() == 1 {
        parts[0]
    } else {
        joined_text(parts.drop_last(), sep) + sep + parts.last()
    }
}

/// The parts, with `sep` between each two.
pub fn join(parts: &Vec<String>, sep: &str) -> (r: String)
    ensures
        r@ == joined_text(views(parts@), sep@),
{
    let mut text = String::new();
    let mut i: usize = 0;
    let ghost all = views(parts@);
    assert(all.take(0) =~= Seq::empty());
    while i < parts.len()
        invariant
            i <= parts.len(),
            all == views(parts@),
            text@ == joined_text(all.take(i as int), sep@),
        decreases parts.len() - i,
    {
        assert(all.take(i + 1).drop_last() =~= all.take(i as int));
        assert(all.take(i + 1).last() == parts@[i as int]@);
        if i == 0 {
            assert(text@ + parts@[0]@ =~= parts@[0]@);
        } else {
            text.append(sep);
        }
        text.append(parts[i].as_str());
        i = i + 1;
    }
    assert(all.take(all.len() as int) =~= all);
    text
}

/// What follows a prefix, where the text begins with it.
pub open spec fn after_prefix(s: Seq<char>, prefix: Seq<char>) -> Option<Seq<char>> {
    if prefix.is_prefix_of(s) {
        Some(s.skip(prefix.len() as int))
    } else {
        None
    }
}

/// What follows a prefix, where the text begins with it.
pub fn strip_front(text: &str, prefix: &str) -> (r: Option<String>)
    ensures
        opt_view(r) == after_prefix(text@, prefix@),
{
    let t = chars_of(text);
    let p = chars_of(prefix);
    if stands_at(&t, &p, 0) {
        assert(prefix@.is_prefix_of(text@));
        let rest = text_of(slice_subrange(t.as_slice(), p.len(), t.len()));
        assert(rest@ =~= text@.skip(prefix@.len() as int));
        Some(rest)
    } else {
        None
    }
}

/// What follows a prefix, and the text itself where it does not begin with it.
pub open spec fn without_prefix(s: Seq<char>, prefix: Seq<char>) -> Seq<char> {
    match after_prefix(s, prefix) {
        Some(rest) => rest,
        None => s,
    }
}

/// What follows a prefix, and the text itself where it does not begin with it.
pub fn skip_front(text: &str, prefix: &str) -> (r: String)
    ensures
        r@ == without_prefix(text@, prefix@),
{
    match strip_front(text, prefix) {
        Some(rest) => rest,
        None => text.to_owned(),
    }
}

/// A text up to the first character that is among `stops`.
pub open spec fn before_any(s: Seq<char>, stops: Seq<char>) -> Seq<char>
    decreases s.len(),
{
    if s.len() == 0 || stops.contains(s[0]) {
        Seq::empty()
    } else {
        seq![s[0]] + before_any(s.drop_first(), stops)
    }
}

fn among_chars(c: char, stops: &[char]) -> (r: bool)
    ensures
        r == stops@.contains(c),
{
    let mut i: usize = 0;
    while i < stops.len()
        invariant
            i <= stops.len(),
            forall|k: int| 0 <= k < i ==> stops@[k] != c,
        decreases stops.len() - i,
    {
        if stops[i] == c {
            return true;
        }
        i = i + 1;
    }
    false
}

/// A text up to the first character that is among `stops`.
pub fn until_any(text: &str, stops: &[char]) -> (r: String)
    ensures
        r@ == before_any(text@, stops@),
{
    let chars = chars_of(text);
    let mut kept = String::new();
    let mut i: usize = 0;
    assert(chars@.skip(0) =~= text@);
    assert(kept@ + before_any(text@, stops@) =~= before_any(text@, stops@));
    while i < chars.len()
        invariant
            i <= chars.len(),
            kept@ + before_any(chars@.skip(i as int), stops@) == before_any(text@, stops@),
        decreases chars.len() - i,
    {
        let ghost rest = chars@.skip(i as int);
        assert(rest[0] == chars@[i as int]);
        if among_chars(chars[i], stops) {
            assert(kept@ =~= before_any(text@, stops@));
            return kept;
        }
        let ghost before = kept@;
        kept.push(chars[i]);
        assert(rest.drop_first() =~= chars@.skip(i + 1));
        i = i + 1;
        assert(kept@ + before_any(chars@.skip(i as int), stops@) =~= before + before_any(
            rest,
            stops@,
        ));
    }
    assert(chars@.skip(i as int) =~= Seq::empty());
    assert(kept@ =~= before_any(text@, stops@));
    kept
}

/// A text without its leading white space.
pub fn trim_start(text: &str) -> (r: String)
    ensures
        r@ == trim_front(text@),
{
    let chars = chars_of(text);
    let mut from: usize = 0;
    assert(chars@.skip(0) =~= text@);
    while from < chars.len() && white(chars[from])
        invariant
            from <= chars.len(),
            trim_front(text@) == trim_front(chars@.skip(from as int)),
        decreases chars.len() - from,
    {
        assert(chars@.skip(from as int).drop_first() =~= chars@.skip(from + 1));
        from = from + 1;
    }
    let r = text_of(slice_subrange(chars.as_slice(), from, chars.len()));
    assert(r@ =~= chars@.skip(from as int));
    r
}

/// A text cut at each `sep`; one part more than there are cuts.
pub open spec fn cut(text: Seq<char>, sep: char) -> Seq<Seq<char>>
    decreases text.len(),
{
    if text.len() == 0 {
        seq![Seq::empty()]
    } else {
        let rest = cut(text.drop_last(), sep);
        if text.last() == sep {
            rest.push(Seq::empty())
        } else {
            rest.update(rest.len() - 1, rest.last().push(text.last()))
        }
    }
}

/// A text cut at a separator is its two sides cut, one after the other.
pub proof fn lemma_cut_joined(front: Seq<char>, back: Seq<char>, sep: char)
    ensures
        cut(front.push(sep) + back, sep) == cut(front, sep) + cut(back, sep),
        cut(front, sep).len() > 0,
    decreases back.len(),
{
    lemma_cut_some(front, sep);
    lemma_cut_some(back, sep);
    let whole = front.push(sep) + back;
    if back.len() == 0 {
        assert(whole.drop_last() =~= front);
        assert(cut(whole, sep) =~= cut(front, sep) + cut(back, sep));
    } else {
        let less = back.drop_last();
        lemma_cut_joined(front, less, sep);
        lemma_cut_some(less, sep);
        assert(whole.drop_last() =~= front.push(sep) + less);
        assert(cut(whole, sep) =~= cut(front, sep) + cut(back, sep));
    }
}

/// A text has at least one part, which is itself where it holds no separator.
pub proof fn lemma_cut_some(text: Seq<char>, sep: char)
    ensures
        cut(text, sep).len() > 0,
        !text.contains(sep) ==> cut(text, sep) == seq![text],
    decreases text.len(),
{
    if text.len() > 0 {
        let less = text.drop_last();
        lemma_cut_some(less, sep);
        if !text.contains(sep) {
            assert forall|i: int| 0 <= i < less.len() implies less[i] != sep by {
                assert(less[i] == text[i]);
            }
            assert(text.last() == text[text.len() - 1]);
            assert(less.push(text.last()) =~= text);
            assert(cut(text, sep) =~= seq![text]);
        }
    } else {
        assert(text =~= Seq::empty());
    }
}

/// Cuts a text at each `sep`.
pub fn cut_at(text: &str, sep: char) -> (r: Vec<String>)
    ensures
        views(r@) == cut(text@, sep),
{
    let chars = chars_of(text);
    let mut done: Vec<String> = Vec::new();
    let mut current = String::new();
    let mut i: usize = 0;
    assert(views(done@).push(current@) =~= cut(text@.take(0), sep));
    while i < chars.len()
        invariant
            i <= chars@.len(),
            chars@ == text@,
            views(done@).push(current@) == cut(text@.take(i as int), sep),
        decreases chars@.len() - i,
    {
        let ghost known = views(done@);
        let ghost open = current@;
        assert(text@.take(i + 1).drop_last() =~= text@.take(i as int));
        assert(known.push(open).last() == open);
        if chars[i] == sep {
            done.push(current);
            current = String::new();
            assert(views(done@).push(current@) =~= cut(text@.take(i + 1), sep));
        } else {
            current.push(chars[i]);
            assert(views(done@).push(current@) =~= cut(text@.take(i + 1), sep));
        }
        i = i + 1;
    }
    assert(text@.take(text@.len() as int) =~= text@);
    done.push(current);
    done
}

/// What `{:?}` prints for a text: the text in double quotes, with quotes,
/// backslashes and unprintable characters escaped.
pub uninterp spec fn debug_text(text: Seq<char>) -> Seq<char>;

/// `str`'s `Debug` formatting. The contract claims only that the result
/// depends on the text alone.
#[verifier::external_body]
pub(crate) fn quoted(text: &str) -> (r: String)
    ensures
        r@ == debug_text(text@),
{
    format!("{:?}", text)
}

/// What stands between two texts occurs in the three put together.
pub proof fn lemma_occurs_between(front: Seq<char>, part: Seq<char>, back: Seq<char>)
    ensures
        occurs_in(front + part + back, part),
{
    let whole = front + part + back;
    let at = front.len() as int;
    assert(whole.subrange(at, at + part.len()) =~= part);
    assert(occurs_at(whole, part, at));
}

/// A text occurs in itself.
pub proof fn lemma_occurs_itself(text: Seq<char>)
    ensures
        occurs_in(text, text),
{
    assert(text.subrange(0, text.len() as int) =~= text);
    assert(occurs_at(text, text, 0));
}

/// What a text ends with occurs in it.
pub proof fn lemma_occurs_last(front: Seq<char>, part: Seq<char>)
    ensures
        occurs_in(front + part, part),
{
    let whole = front + part;
    let at = front.len() as int;
    assert(whole.subrange(at, at + part.len()) =~= part);
    assert(occurs_at(whole, part, at));
}

/// What occurs in a text still does where the text goes on.
pub proof fn lemma_occurs_on(front: Seq<char>, back: Seq<char>, part: Seq<char>)
    requires
        occurs_in(front, part),
    ensures
        occurs_in(front + back, part),
{
    let at = choose|at: int| occurs_at(front, part, at);
    assert((front + back).subrange(at, at + part.len()) =~= front.subrange(at, at + part.len()));
    assert(occurs_at(front + back, part, at));
}

/// What occurs in a part occurs in the whole.
pub proof fn lemma_occurs_within(whole: Seq<char>, part: Seq<char>, inner: Seq<char>)
    requires
        occurs_in(whole, part),
        occurs_in(part, inner),
    ensures
        occurs_in(whole, inner),
{
    let a = choose|at: int| occurs_at(whole, part, at);
    let b = choose|at: int| occurs_at(part, inner, at);
    assert(whole.subrange(a + b, a + b + inner.len()) =~= whole.subrange(
        a,
        a + part.len(),
    ).subrange(b, b + inner.len()));
    assert(occurs_at(whole, inner, a + b));
}

/// Each part occurs in the parts put together.
pub proof fn lemma_parts_occur(parts: Seq<Seq<char>>, sep: Seq<char>, i: int)
    requires
        0 <= i < parts.len(),
    ensures
        occurs_in(joined_text(parts, sep), parts[i]),
    decreases parts.len(),
{
    let none = Seq::<char>::empty();
    let whole = joined_text(parts, sep);
    if parts.len() == 1 {
        assert(whole =~= none + parts[i] + none);
        lemma_occurs_between(none, parts[i], none);
    } else {
        let less = joined_text(parts.drop_last(), sep);
        if i == parts.len() - 1 {
            assert(whole =~= (less + sep) + parts[i] + none);
            lemma_occurs_between(less + sep, parts[i], none);
        } else {
            lemma_parts_occur(parts.drop_last(), sep, i);
            assert(parts.drop_last()[i] == parts[i]);
            assert(whole =~= none + less + (sep + parts.last()));
            lemma_occurs_between(none, less, sep + parts.last());
            lemma_occurs_within(whole, less, parts[i]);
        }
    }
}

} // verus!
