//! Text: comparing it and splitting it into words.

use vstd::prelude::*;
use vstd::string::*;
use vstd::utf8::*;

verus! {

/// The texts of a list of strings.
pub open spec fn texts(list: Seq<String>) -> Seq<Seq<char>> {
    list.map_values(|s: String| s@)
}

/// Whether two strings hold the same characters.
pub fn same_text(a: &str, b: &str) -> (same: bool)
    ensures
        same == (a@ == b@),
{
    let left = a.as_bytes();
    let right = b.as_bytes();
    proof {
        encode_utf8_decode_utf8(a@);
        encode_utf8_decode_utf8(b@);
    }
    if left.len() != right.len() {
        return false;
    }
    let mut i: usize = 0;
    while i < left.len()
        invariant
            i <= left@.len(),
            left@.len() == right@.len(),
            left@ == encode_utf8(a@),
            right@ == encode_utf8(b@),
            forall|k: int| 0 <= k < i ==> left@[k] == right@[k],
        decreases left@.len() - i,
    {
        if left[i] != right[i] {
            return false;
        }
        i = i + 1;
    }
    assert(left@ =~= right@);
    true
}

/// The characters of a string, one by one.
pub fn characters(s: &str) -> (chars: Vec<char>)
    ensures
        chars@ == s@,
{
    let mut chars: Vec<char> = Vec::new();
    for c in it: s.chars()
        invariant
            it.seq() == s@,
            chars@ =~= s@.take(it.index() as int),
    {
        chars.push(c);
    }
    assert(s@.take(s@.len() as int) =~= s@);
    chars
}

/// The characters that separate words: those with the Unicode property `White_Space`.
pub open spec fn is_white_space(c: char) -> bool {
    let code = c as u32;
    ||| 0x09 <= code <= 0x0d
    ||| code == 0x20
    ||| code == 0x85
    ||| code == 0xa0
    ||| code == 0x1680
    ||| 0x2000 <= code <= 0x200a
    ||| code == 0x2028
    ||| code == 0x2029
    ||| code == 0x202f
    ||| code == 0x205f
    ||| code == 0x3000
}

/// Whether a character separates words.
pub fn white_space(c: char) -> (blank: bool)
    ensures
        blank == is_white_space(c),
{
    let code: u32 = c as u32;
    (0x09 <= code && code <= 0x0d) || code == 0x20 || code == 0x85 || code == 0xa0 || code == 0x1680
        || (0x2000 <= code && code <= 0x200a) || code == 0x2028 || code == 0x2029 || code == 0x202f
        || code == 0x205f || code == 0x3000
}

/// Text that is not empty and holds no white space.
pub open spec fn is_word(w: Seq<char>) -> bool {
    &&& w.len() > 0
    &&& forall|k: int| 0 <= k < w.len() ==> !is_white_space(#[trigger] w[k])
}

/// How many characters stand before the first white space of `s`.
pub open spec fn word_length(s: Seq<char>) -> nat
    decreases s.len(),
{
    if s.len() == 0 || is_white_space(s[0]) {
        0
    } else {
        1 + word_length(s.drop_first())
    }
}

/// The words of `s`: the longest runs of characters that are not white space, in order.
pub open spec fn words(s: Seq<char>) -> Seq<Seq<char>>
    decreases s.len(),
    via words_shrink
{
    if s.len() == 0 {
        seq![]
    } else if is_white_space(s[0]) {
        words(s.drop_first())
    } else {
        seq![s.take(word_length(s) as int)] + words(s.skip(word_length(s) as int))
    }
}

#[via_fn]
proof fn words_shrink(s: Seq<char>) {
    lemma_word_length(s);
}

/// A word ends inside the text, holds no white space, and is followed by some or by the end.
pub proof fn lemma_word_length(s: Seq<char>)
    ensures
        word_length(s) <= s.len(),
        s.len() > 0 && !is_white_space(s[0]) ==> word_length(s) > 0,
        forall|k: int| 0 <= k < word_length(s) ==> !is_white_space(#[trigger] s[k]),
        word_length(s) < s.len() ==> is_white_space(s[word_length(s) as int]),
    decreases s.len(),
{
    if s.len() > 0 && !is_white_space(s[0]) {
        let rest = s.drop_first();
        lemma_word_length(rest);
        assert forall|k: int| 0 <= k < word_length(s) implies !is_white_space(#[trigger] s[k]) by {
            if k > 0 {
                assert(rest[k - 1] == s[k]);
            }
        }
    }
}

/// A run without white space that ends at white space or at the end is the first word.
proof fn lemma_word_length_is(s: Seq<char>, n: int)
    requires
        0 <= n <= s.len(),
        forall|k: int| 0 <= k < n ==> !is_white_space(#[trigger] s[k]),
        n < s.len() ==> is_white_space(s[n]),
    ensures
        word_length(s) == n,
{
    lemma_word_length(s);
    if word_length(s) < n {
        assert(!is_white_space(s[word_length(s) as int]));
    }
    if n < word_length(s) {
        assert(!is_white_space(s[n]));
    }
}

/// The words of a line.
pub fn split_words(line: &str) -> (parts: Vec<String>)
    ensures
        texts(parts@) == words(line@),
{
    let chars = characters(line);
    let n: usize = chars.len();
    let mut parts: Vec<String> = Vec::new();
    let mut i: usize = 0;
    assert(line@.skip(0) =~= line@);
    assert(texts(parts@) =~= seq![]);
    while i < n
        invariant
            n == chars@.len(),
            chars@ == line@,
            i <= n,
            words(line@) == texts(parts@) + words(line@.skip(i as int)),
        decreases n - i,
    {
        let ghost rest = line@.skip(i as int);
        if white_space(chars[i]) {
            assert(rest[0] == line@[i as int]);
            assert(rest.drop_first() =~= line@.skip(i + 1));
            i = i + 1;
        } else {
            let start: usize = i;
            while i < n && !white_space(chars[i])
                invariant
                    n == chars@.len(),
                    chars@ == line@,
                    start <= i <= n,
                    forall|k: int| start <= k < i ==> !is_white_space(#[trigger] line@[k]),
                decreases n - i,
            {
                i = i + 1;
            }
            let word = line.substring_char(start, i).to_owned();
            proof {
                let len = i - start;
                assert forall|k: int| 0 <= k < len implies !is_white_space(#[trigger] rest[k]) by {
                    assert(rest[k] == line@[start + k]);
                }
                if len < rest.len() {
                    assert(rest[len] == line@[i as int]);
                }
                lemma_word_length_is(rest, len);
                assert(rest[0] == line@[start as int]);
                assert(rest.take(len) =~= line@.subrange(start as int, i as int));
                assert(rest.skip(len) =~= line@.skip(i as int));
            }
            let ghost before = texts(parts@);
            parts.push(word);
            assert(texts(parts@) =~= before + seq![word@]);
            assert(before + (seq![word@] + words(line@.skip(i as int))) =~= texts(parts@) + words(
                line@.skip(i as int),
            ));
        }
    }
    assert(line@.skip(n as int) =~= seq![]);
    assert(texts(parts@) + words(line@.skip(n as int)) =~= texts(parts@));
    parts
}

/// White space separates: what stands before it and what stands after it are split on their own.
pub proof fn law_white_space_separates(a: Seq<char>, c: char, b: Seq<char>)
    requires
        is_white_space(c),
    ensures
        words(a.push(c) + b) == words(a) + words(b),
    decreases a.len(),
{
    let whole = a.push(c) + b;
    if a.len() == 0 {
        assert(whole[0] == c);
        assert(whole.drop_first() =~= b);
        assert(words(a) + words(b) =~= words(b));
    } else if is_white_space(a[0]) {
        law_white_space_separates(a.drop_first(), c, b);
        assert(whole[0] == a[0]);
        assert(whole.drop_first() =~= a.drop_first().push(c) + b);
    } else {
        let n = word_length(a) as int;
        lemma_word_length(a);
        assert forall|k: int| 0 <= k < n implies !is_white_space(#[trigger] whole[k]) by {
            assert(whole[k] == a[k]);
        }
        assert(whole[n] == if n < a.len() { a[n] } else { c });
        lemma_word_length_is(whole, n);
        law_white_space_separates(a.skip(n), c, b);
        assert(whole[0] == a[0]);
        assert(whole.skip(n) =~= a.skip(n).push(c) + b);
        assert(whole.take(n) =~= a.take(n));
        assert(words(a) + words(b) =~= seq![a.take(n)] + (words(a.skip(n)) + words(b)));
    }
}

/// Text without white space is one word.
pub proof fn law_single_word(w: Seq<char>)
    requires
        is_word(w),
    ensures
        words(w) == seq![w],
{
    lemma_word_length_is(w, w.len() as int);
    assert(!is_white_space(w[0]));
    assert(w.take(w.len() as int) =~= w);
    assert(w.skip(w.len() as int) =~= seq![]);
    assert(seq![w] + words(seq![]) =~= seq![w]);
}

/// Words in a row, with a space between each two.
pub open spec fn joined(list: Seq<Seq<char>>) -> Seq<char>
    decreases list.len(),
{
    if list.len() == 0 {
        seq![]
    } else if list.len() == 1 {
        list[0]
    } else {
        joined(list.drop_last()).push(' ') + list.last()
    }
}

/// Words joined by spaces are split into the same words again.
pub proof fn law_joined_words_are_split_again(list: Seq<Seq<char>>)
    requires
        forall|i: int| 0 <= i < list.len() ==> is_word(#[trigger] list[i]),
    ensures
        words(joined(list)) == list,
    decreases list.len(),
{
    if list.len() == 1 {
        law_single_word(list[0]);
        assert(seq![list[0]] =~= list);
    } else if list.len() > 1 {
        let front = list.drop_last();
        assert forall|i: int| 0 <= i < front.len() implies is_word(#[trigger] front[i]) by {
            assert(front[i] == list[i]);
        }
        law_joined_words_are_split_again(front);
        assert(is_word(list[list.len() - 1]));
        law_single_word(list.last());
        law_white_space_separates(joined(front), ' ', list.last());
        assert(front + seq![list.last()] =~= list);
    } else {
        assert(words(joined(list)) =~= list);
    }
}

/// White space alone holds no word.
proof fn lemma_blank_has_no_words(s: Seq<char>)
    requires
        forall|k: int| 0 <= k < s.len() ==> is_white_space(#[trigger] s[k]),
    ensures
        words(s) == Seq::<Seq<char>>::empty(),
    decreases s.len(),
{
    if s.len() > 0 {
        assert(is_white_space(s[0]));
        assert forall|k: int| 0 <= k < s.drop_first().len() implies is_white_space(
            #[trigger] s.drop_first()[k],
        ) by {
            assert(s.drop_first()[k] == s[k + 1]);
        }
        lemma_blank_has_no_words(s.drop_first());
    }
}

/// White space before and after a line does not change its words.
pub proof fn law_surrounding_white_space_is_ignored(
    left: Seq<char>,
    line: Seq<char>,
    right: Seq<char>,
)
    requires
        forall|k: int| 0 <= k < left.len() ==> is_white_space(#[trigger] left[k]),
        forall|k: int| 0 <= k < right.len() ==> is_white_space(#[trigger] right[k]),
    ensures
        words(left + line + right) == words(line),
    decreases left.len(),
{
    let whole = left + line + right;
    if left.len() > 0 {
        let rest = left.drop_first();
        assert forall|k: int| 0 <= k < rest.len() implies is_white_space(#[trigger] rest[k]) by {
            assert(rest[k] == left[k + 1]);
        }
        law_surrounding_white_space_is_ignored(rest, line, right);
        assert(is_white_space(left[0]));
        assert(whole[0] == left[0]);
        assert(whole.drop_first() =~= rest + line + right);
    } else if right.len() > 0 {
        let rest = right.drop_first();
        assert(is_white_space(right[0]));
        assert forall|k: int| 0 <= k < rest.len() implies is_white_space(#[trigger] rest[k]) by {
            assert(rest[k] == right[k + 1]);
        }
        law_white_space_separates(line, right[0], rest);
        lemma_blank_has_no_words(rest);
        assert(whole =~= line.push(right[0]) + rest);
        assert(words(line) + words(rest) =~= words(line));
    } else {
        assert(whole =~= line);
    }
}

/// A word is never empty and holds no white space.
pub proof fn law_words_are_words(s: Seq<char>)
    ensures
        forall|i: int| 0 <= i < words(s).len() ==> is_word(#[trigger] words(s)[i]),
    decreases s.len(),
{
    if s.len() > 0 {
        if is_white_space(s[0]) {
            law_words_are_words(s.drop_first());
            assert(words(s) == words(s.drop_first()));
        } else {
            let n = word_length(s) as int;
            lemma_word_length(s);
            law_words_are_words(s.skip(n));
            assert forall|i: int| 0 <= i < words(s).len() implies is_word(
                #[trigger] words(s)[i],
            ) by {
                if i == 0 {
                    assert forall|k: int| 0 <= k < n implies !is_white_space(
                        #[trigger] s.take(n)[k],
                    ) by {
                        assert(s.take(n)[k] == s[k]);
                    }
                } else {
                    assert(words(s)[i] == words(s.skip(n))[i - 1]);
                }
            }
        }
    }
}

/// Splitting drops the white space and nothing else: the words, joined, are the characters of the
/// line that are not white space, in their order.
pub proof fn law_words_keep_every_other_character(s: Seq<char>)
    ensures
        words(s).flatten() == s.filter(|c: char| !is_white_space(c)),
    decreases s.len(),
{
    let kept = |c: char| !is_white_space(c);
    if s.len() == 0 {
        assert(s.filter(kept) =~= seq![]) by {
            reveal(Seq::filter);
        }
        assert(words(s).flatten() =~= seq![]);
    } else if is_white_space(s[0]) {
        law_words_keep_every_other_character(s.drop_first());
        assert(s =~= seq![s[0]] + s.drop_first());
        Seq::filter_distributes_over_add(seq![s[0]], s.drop_first(), kept);
        assert(seq![s[0]].filter(kept) =~= seq![]) by {
            reveal_with_fuel(Seq::filter, 2);
        }
        assert(s.filter(kept) =~= s.drop_first().filter(kept));
    } else {
        let n = word_length(s) as int;
        lemma_word_length(s);
        law_words_keep_every_other_character(s.skip(n));
        assert(s =~= s.take(n) + s.skip(n));
        Seq::filter_distributes_over_add(s.take(n), s.skip(n), kept);
        assert forall|k: int| 0 <= k < n implies kept(#[trigger] s.take(n)[k]) by {
            assert(s.take(n)[k] == s[k]);
        }
        lemma_filter_keeps_all(s.take(n), kept);
        assert(words(s).drop_first() =~= words(s.skip(n)));
        assert(words(s).flatten() =~= s.take(n) + words(s.skip(n)).flatten());
    }
}

/// A filter that every element passes changes nothing.
proof fn lemma_filter_keeps_all(s: Seq<char>, kept: spec_fn(char) -> bool)
    requires
        forall|k: int| 0 <= k < s.len() ==> kept(#[trigger] s[k]),
    ensures
        s.filter(kept) == s,
    decreases s.len(),
{
    reveal(Seq::filter);
    if s.len() > 0 {
        let front = s.drop_last();
        assert forall|k: int| 0 <= k < front.len() implies kept(#[trigger] front[k]) by {
            assert(front[k] == s[k]);
        }
        lemma_filter_keeps_all(front, kept);
        assert(kept(s[s.len() - 1]));
        assert(front.push(s.last()) =~= s);
    }
}

/// The texts of a list of strings are those of the strings, one by one and in order.
pub proof fn law_texts_are_those_of_the_strings(list: Seq<String>)
    ensures
        texts(list).len() == list.len(),
        forall|i: int| 0 <= i < list.len() ==> #[trigger] texts(list)[i] == list[i]@,
{
}

/// Of the ASCII characters, the space and those from the tab to the carriage return are white space,
/// and no other is.
pub proof fn law_white_space_of_ascii(c: char)
    requires
        (c as u32) < 0x80,
    ensures
        is_white_space(c) <==> c == ' ' || '\t' <= c <= '\r',
{
}

/// Text of any length that is not empty and holds no white space is one word, taken as a whole. Text
/// that is all white space holds no word.
pub proof fn law_words_are_the_longest_runs(s: Seq<char>)
    ensures
        s.len() > 0 && (forall|k: int| 0 <= k < s.len() ==> !is_white_space(#[trigger] s[k]))
            ==> words(s) == seq![s],
        (forall|k: int| 0 <= k < s.len() ==> is_white_space(#[trigger] s[k])) ==> words(s).len()
            == 0,
{
    if s.len() > 0 && (forall|k: int| 0 <= k < s.len() ==> !is_white_space(#[trigger] s[k])) {
        law_single_word(s);
    }
    if forall|k: int| 0 <= k < s.len() ==> is_white_space(#[trigger] s[k]) {
        lemma_blank_has_no_words(s);
    }
}

} // verus!
