//! What the calls that read and write text give for what they are given.

use crate::laws::{law_trimmed_ends, law_words};
use crate::text::{
    digit, digits, fields, integer_text, is_white, is_whitespace, natural_text, padded,
    split, split_whitespace, texts, trim, trim_end, trim_start, trimmed, words,
};
use vstd::prelude::*;

verus! {

/// White space is what Unicode calls `White_Space`, and nothing else.
pub proof fn law_white_space(c: char, res: bool)
    ensures
        call_ensures(is_whitespace, (c,), res) ==> res == is_white(c),
        is_white(c) <==> {
            ||| c == '\t' || c == '\n' || c == '\u{B}' || c == '\u{C}' || c == '\r' || c == ' '
            ||| c == '\u{85}' || c == '\u{A0}' || c == '\u{1680}'
            ||| c == '\u{2000}' || c == '\u{2001}' || c == '\u{2002}' || c == '\u{2003}'
            ||| c == '\u{2004}' || c == '\u{2005}' || c == '\u{2006}' || c == '\u{2007}'
            ||| c == '\u{2008}' || c == '\u{2009}' || c == '\u{200A}'
            ||| c == '\u{2028}' || c == '\u{2029}' || c == '\u{202F}' || c == '\u{205F}'
            ||| c == '\u{3000}'
        },
{
}

/// The texts of strings are those of each string, in their order.
pub proof fn law_texts(strings: Seq<String>)
    ensures
        texts(strings).len() == strings.len(),
        forall|i: int| 0 <= i < strings.len() ==> #[trigger] texts(strings)[i] == strings[i]@,
{
}

/// A part of a text, with nothing but white space before and behind it.
pub open spec fn is_core(s: Seq<char>, from: int, to: int) -> bool {
    &&& 0 <= from <= to <= s.len()
    &&& forall|i: int| 0 <= i < from ==> is_white(#[trigger] s[i])
    &&& forall|i: int| to <= i < s.len() ==> is_white(#[trigger] s[i])
}

/// To trim a text takes white space off its two ends and nothing else, and leaves
/// none there.
pub proof fn law_trim(s: &str, res: String)
    requires
        call_ensures(trim, (s,), res),
    ensures
        exists|from: int, to: int| #[trigger]
            is_core(s@, from, to) && res@ == s@.subrange(from, to),
        res@.len() > 0 ==> !is_white(res@[0]) && !is_white(res@.last()),
{
    law_trimmed_ends(s@);
    lemma_trimmed_is_core(s@);
}

/// What is left of a text without the white space around it is the text but for
/// white space at its ends.
pub proof fn lemma_trimmed_is_core(s: Seq<char>)
    ensures
        exists|from: int, to: int| #[trigger]
            is_core(s, from, to) && trimmed(s) == s.subrange(from, to),
{
    lemma_trim_start_skips(s);
    let from = choose|from: int|
        0 <= from <= s.len() && trim_start(s) == #[trigger] s.skip(from) && forall|i: int|
            0 <= i < from ==> is_white(#[trigger] s[i]);
    lemma_trim_end_takes(s.skip(from));
    let to = from + trim_end(s.skip(from)).len();
    assert(trimmed(s) =~= s.subrange(from, to));
    assert forall|i: int| to <= i < s.len() implies is_white(#[trigger] s[i]) by {
        assert(s.skip(from)[i - from] == s[i]);
    }
    assert(is_core(s, from, to));
}

proof fn lemma_trim_start_skips(s: Seq<char>)
    ensures
        exists|from: int|
            0 <= from <= s.len() && trim_start(s) == #[trigger] s.skip(from) && forall|i: int|
                0 <= i < from ==> is_white(#[trigger] s[i]),
    decreases s.len(),
{
    if s.len() > 0 && is_white(s[0]) {
        let rest = s.drop_first();
        lemma_trim_start_skips(rest);
        let from = choose|from: int|
            0 <= from <= rest.len() && trim_start(rest) == #[trigger] rest.skip(from)
                && forall|i: int| 0 <= i < from ==> is_white(#[trigger] rest[i]);
        assert(rest.skip(from) =~= s.skip(from + 1));
        assert forall|i: int| 0 <= i < from + 1 implies is_white(#[trigger] s[i]) by {
            if i > 0 {
                assert(rest[i - 1] == s[i]);
            }
        }
    } else {
        assert(s.skip(0) =~= s);
    }
}

proof fn lemma_trim_end_takes(s: Seq<char>)
    ensures
        trim_end(s).len() <= s.len(),
        trim_end(s) == s.take(trim_end(s).len() as int),
        forall|i: int| trim_end(s).len() <= i < s.len() ==> is_white(#[trigger] s[i]),
    decreases s.len(),
{
    if s.len() > 0 && is_white(s.last()) {
        let rest = s.drop_last();
        lemma_trim_end_takes(rest);
        assert(rest.take(trim_end(s).len() as int) =~= s.take(trim_end(s).len() as int));
        assert forall|i: int| trim_end(s).len() <= i < s.len() implies is_white(
            #[trigger] s[i],
        ) by {
            if i < rest.len() {
                assert(rest[i] == s[i]);
            }
        }
    } else {
        assert(s.take(s.len() as int) =~= s);
    }
}

/// A text without white space is one word, and a text without characters has no
/// words.
pub proof fn law_text_of_one_word(s: &str, res: Vec<String>)
    requires
        call_ensures(split_whitespace, (s,), res),
        forall|i: int| 0 <= i < s@.len() ==> !is_white(#[trigger] s@[i]),
    ensures
        s@.len() == 0 ==> res@.len() == 0,
        s@.len() > 0 ==> res@.len() == 1 && res@[0]@ == s@,
{
    assert(texts(res@).len() == res@.len());
    if s@.len() > 0 {
        lemma_one_word(s@);
        assert(texts(res@)[0] == res@[0]@);
    }
}

proof fn lemma_one_word(s: Seq<char>)
    requires
        s.len() > 0,
        forall|i: int| 0 <= i < s.len() ==> !is_white(#[trigger] s[i]),
    ensures
        words(s) == seq![s],
    decreases s.len(),
{
    let before = s.drop_last();
    assert(!is_white(s[s.len() - 1]));
    if before.len() > 0 {
        assert forall|i: int| 0 <= i < before.len() implies !is_white(#[trigger] before[i]) by {
            assert(before[i] == s[i]);
        }
        lemma_one_word(before);
        assert(!is_white(s[s.len() - 2]));
        assert(before.push(s.last()) =~= s);
        assert(words(s) =~= seq![s]);
    } else {
        assert(words(before) =~= Seq::<Seq<char>>::empty());
        assert(seq![s.last()] =~= s);
        assert(words(s) =~= seq![s]);
    }
}

/// A text with white space in it has the words before the white space, and then
/// those behind it.
pub proof fn law_white_space_parts_words(
    left: &str,
    c: char,
    right: &str,
    whole: &str,
    left_words: Vec<String>,
    right_words: Vec<String>,
    all_words: Vec<String>,
)
    requires
        call_ensures(split_whitespace, (left,), left_words),
        call_ensures(split_whitespace, (right,), right_words),
        call_ensures(split_whitespace, (whole,), all_words),
        is_white(c),
        whole@ == left@.push(c) + right@,
    ensures
        all_words@.len() == left_words@.len() + right_words@.len(),
        forall|i: int| 0 <= i < left_words@.len() ==> all_words@[i]@ == #[trigger] left_words@[i]@,
        forall|i: int|
            0 <= i < right_words@.len() ==> all_words@[left_words@.len() + i]@
                == #[trigger] right_words@[i]@,
{
    lemma_words_parted(left@, c, right@);
    let all = texts(all_words@);
    assert(all == texts(left_words@) + texts(right_words@));
    assert(all.len() == all_words@.len());
    assert(texts(left_words@).len() == left_words@.len());
    assert(texts(right_words@).len() == right_words@.len());
    assert forall|i: int| 0 <= i < left_words@.len() implies all_words@[i]@
        == #[trigger] left_words@[i]@ by {
        assert(all[i] == all_words@[i]@);
        assert(all[i] == texts(left_words@)[i]);
    }
    assert forall|i: int| 0 <= i < right_words@.len() implies all_words@[left_words@.len() + i]@
        == #[trigger] right_words@[i]@ by {
        assert(all[left_words@.len() + i] == all_words@[left_words@.len() + i]@);
        assert(all[left_words@.len() + i] == texts(right_words@)[i]);
    }
}

proof fn lemma_words_parted(left: Seq<char>, c: char, right: Seq<char>)
    requires
        is_white(c),
    ensures
        words(left.push(c) + right) == words(left) + words(right),
    decreases right.len(),
{
    let s = left.push(c) + right;
    if right.len() == 0 {
        assert(s.drop_last() =~= left);
        assert(words(right) =~= Seq::<Seq<char>>::empty());
        assert(words(left) + words(right) =~= words(left));
    } else {
        let shorter = right.drop_last();
        assert(s.drop_last() =~= left.push(c) + shorter);
        lemma_words_parted(left, c, shorter);
        assert(s.last() == right.last());
        if !is_white(right.last()) {
            if right.len() > 1 {
                assert(s[s.len() - 2] == right[right.len() - 2]);
                if !is_white(right[right.len() - 2]) {
                    law_words(shorter);
                    assert(!is_white(shorter[shorter.len() - 1]));
                }
            } else {
                assert(s[s.len() - 2] == c);
            }
        }
        assert(words(s) =~= words(left) + words(right));
    }
}

/// A text without the separator is one field.
pub proof fn law_text_of_one_field(s: &str, separator: char, res: Vec<String>)
    requires
        call_ensures(split, (s, separator), res),
        !s@.contains(separator),
    ensures
        res@.len() == 1,
        res@[0]@ == s@,
{
    lemma_one_field(s@, separator);
    assert(texts(res@).len() == res@.len());
    assert(texts(res@)[0] == res@[0]@);
}

proof fn lemma_one_field(s: Seq<char>, separator: char)
    requires
        !s.contains(separator),
    ensures
        fields(s, separator) == seq![s],
    decreases s.len(),
{
    if s.len() > 0 {
        let before = s.drop_last();
        assert(!before.contains(separator)) by {
            if before.contains(separator) {
                let i = choose|i: int| 0 <= i < before.len() && before[i] == separator;
                assert(s[i] == separator);
            }
        }
        lemma_one_field(before, separator);
        assert(s[s.len() - 1] != separator);
        assert(before.push(s.last()) =~= s);
    } else {
        assert(s =~= Seq::<char>::empty());
    }
    assert(fields(s, separator) =~= seq![s]);
}

/// A text with a separator in it has the fields before the separator, and then
/// those behind it.
pub proof fn law_separator_parts_fields(
    left: &str,
    separator: char,
    right: &str,
    whole: &str,
    left_fields: Vec<String>,
    right_fields: Vec<String>,
    all_fields: Vec<String>,
)
    requires
        call_ensures(split, (left, separator), left_fields),
        call_ensures(split, (right, separator), right_fields),
        call_ensures(split, (whole, separator), all_fields),
        whole@ == left@.push(separator) + right@,
    ensures
        all_fields@.len() == left_fields@.len() + right_fields@.len(),
        forall|i: int|
            0 <= i < left_fields@.len() ==> all_fields@[i]@ == #[trigger] left_fields@[i]@,
        forall|i: int|
            0 <= i < right_fields@.len() ==> all_fields@[left_fields@.len() + i]@
                == #[trigger] right_fields@[i]@,
{
    lemma_fields_parted(left@, separator, right@);
    let all = texts(all_fields@);
    assert(all == texts(left_fields@) + texts(right_fields@));
    assert(all.len() == all_fields@.len());
    assert(texts(left_fields@).len() == left_fields@.len());
    assert(texts(right_fields@).len() == right_fields@.len());
    assert forall|i: int| 0 <= i < left_fields@.len() implies all_fields@[i]@
        == #[trigger] left_fields@[i]@ by {
        assert(all[i] == all_fields@[i]@);
        assert(all[i] == texts(left_fields@)[i]);
    }
    assert forall|i: int| 0 <= i < right_fields@.len() implies all_fields@[left_fields@.len() + i]@
        == #[trigger] right_fields@[i]@ by {
        assert(all[left_fields@.len() + i] == all_fields@[left_fields@.len() + i]@);
        assert(all[left_fields@.len() + i] == texts(right_fields@)[i]);
    }
}

proof fn lemma_fields_parted(left: Seq<char>, separator: char, right: Seq<char>)
    ensures
        fields(right, separator).len() > 0,
        fields(left.push(separator) + right, separator) == fields(left, separator) + fields(
            right,
            separator,
        ),
    decreases right.len(),
{
    let s = left.push(separator) + right;
    if right.len() == 0 {
        assert(s.drop_last() =~= left);
    } else {
        let shorter = right.drop_last();
        assert(s.drop_last() =~= left.push(separator) + shorter);
        lemma_fields_parted(left, separator, shorter);
        assert(s.last() == right.last());
    }
    assert(fields(s, separator) =~= fields(left, separator) + fields(right, separator));
}

/// A text in a column has nothing but spaces behind it.
pub proof fn law_padding_is_spaces(s: Seq<char>, width: nat)
    ensures
        padded(s, width).len() >= s.len(),
        padded(s, width).len() >= width,
        padded(s, width).len() == s.len() || padded(s, width).len() == width,
        forall|i: int| 0 <= i < s.len() ==> #[trigger] padded(s, width)[i] == s[i],
        forall|i: int|
            s.len() <= i < padded(s, width).len() ==> #[trigger] padded(s, width)[i] == ' ',
{
}

/// The number that decimal digits stand for.
pub open spec fn number(text: Seq<char>) -> int
    decreases text.len(),
{
    if text.len() == 0 {
        0
    } else {
        10 * number(text.drop_last()) + (text.last() as int - '0' as int)
    }
}

/// Decimal digits without a zero in front, unless it is the only one.
pub open spec fn is_numeral(text: Seq<char>) -> bool {
    &&& text.len() > 0
    &&& forall|i: int| 0 <= i < text.len() ==> '0' <= #[trigger] text[i] <= '9'
    &&& text.len() > 1 ==> text[0] != '0'
}

/// What is written of a natural number are decimal digits, and to read them gives
/// the number back.
pub proof fn law_written_number(n: u64, res: String)
    requires
        call_ensures(natural_text, (n,), res),
    ensures
        is_numeral(res@),
        number(res@) == n,
{
    lemma_digits_read(n as nat);
}

/// What is written of an integer is a minus sign where it is negative, and decimal
/// digits, and to read them gives the integer back.
pub proof fn law_written_integer(n: i64, res: String)
    requires
        call_ensures(integer_text, (n,), res),
    ensures
        n >= 0 ==> is_numeral(res@) && number(res@) == n,
        n < 0 ==> res@[0] == '-' && is_numeral(res@.skip(1)) && number(res@.skip(1)) == -n,
{
    if n < 0 {
        lemma_digits_read((-n) as nat);
        assert(res@.skip(1) =~= digits((-n) as nat));
    } else {
        lemma_digits_read(n as nat);
    }
}

proof fn lemma_digits_read(n: nat)
    ensures
        is_numeral(digits(n)),
        number(digits(n)) == n,
        n > 0 ==> digits(n)[0] != '0',
    decreases n,
{
    if n < 10 {
        assert(digits(n).drop_last() =~= Seq::<char>::empty());
        assert(number(digits(n).drop_last()) == 0);
        assert(digits(n).last() == digit(n as int));
    } else {
        lemma_digits_read(n / 10);
        let front = digits(n / 10);
        assert(digits(n).drop_last() =~= front);
        assert(digits(n).last() == digit((n % 10) as int));
        assert forall|i: int| 0 <= i < digits(n).len() implies '0' <= #[trigger] digits(n)[i]
            <= '9' by {
            if i < front.len() {
                assert(digits(n)[i] == front[i]);
            }
        }
        assert(digits(n)[0] == front[0]);
    }
}

} // verus!
