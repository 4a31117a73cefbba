//! Text as the agent reads and writes it: white space, words, fields between
//! separators, padded columns and decimal numbers.

use vstd::prelude::*;

verus! {

/// The texts that a sequence of strings holds.
pub open spec fn texts(strings: Seq<String>) -> Seq<Seq<char>> {
    Seq::new(strings.len(), |i: int| strings[i]@)
}

/// A character with the Unicode property `White_Space`.
pub open spec fn is_white(c: char) -> bool {
    let p = c as u32;
    ||| 0x9 <= p <= 0xD
    ||| p == 0x20
    ||| p == 0x85
    ||| p == 0xA0
    ||| p == 0x1680
    ||| 0x2000 <= p <= 0x200A
    ||| p == 0x2028
    ||| p == 0x2029
    ||| p == 0x202F
    ||| p == 0x205F
    ||| p == 0x3000
}

/// Whether a character is white space.
pub fn is_whitespace(c: char) -> (res: bool)
    ensures
        res == is_white(c),
{
    let p: u32 = c as u32;
    (0x9 <= p && p <= 0xD) || p == 0x20 || p == 0x85 || p == 0xA0 || p == 0x1680 || (0x2000 <= p
        && p <= 0x200A) || p == 0x2028 || p == 0x2029 || p == 0x202F || p == 0x205F || p == 0x3000
}

/// Whether two texts are the same.
pub(crate) fn same_text(a: &str, b: &str) -> (res: bool)
    ensures
        res == (a@ == b@),
{
    a.to_owned() == b.to_owned()
}

/// The characters of a text, one by one.
pub(crate) fn chars_of(s: &str) -> (res: Vec<char>)
    ensures
        res@ == s@,
{
    let mut res: Vec<char> = Vec::new();
    for c in iter: s.chars()
        invariant
            res@ == iter.seq().take(iter.index() as int),
            iter.seq() == s@,
    {
        res.push(c);
    }
    res
}

/// A text without the white space at its end.
pub open spec fn trim_end(s: Seq<char>) -> Seq<char>
    decreases s.len(),
{
    if s.len() > 0 && is_white(s.last()) {
        trim_end(s.drop_last())
    } else {
        s
    }
}

/// A text without the white space at its start.
pub open spec fn trim_start(s: Seq<char>) -> Seq<char>
    decreases s.len(),
{
    if s.len() > 0 && is_white(s[0]) {
        trim_start(s.drop_first())
    } else {
        s
    }
}

/// A text without the white space around it.
pub open spec fn trimmed(s: Seq<char>) -> Seq<char> {
    trim_end(trim_start(s))
}

/// The words of a text: its longest runs without white space, in order. A
/// further character starts a word, or makes the last one longer, unless it is
/// white space.
pub open spec fn words(s: Seq<char>) -> Seq<Seq<char>>
    decreases s.len(),
{
    if s.len() == 0 {
        seq![]
    } else {
        let before = words(s.drop_last());
        if is_white(s.last()) {
            before
        } else if s.len() > 1 && !is_white(s[s.len() - 2]) {
            before.drop_last().push(before.last().push(s.last()))
        } else {
            before.push(seq![s.last()])
        }
    }
}

/// The given text without the white space around it.
pub fn trim(s: &str) -> (res: String)
    ensures
        res@ == trimmed(s@),
{
    let chars = chars_of(s);
    let mut from: usize = 0;
    assert(s@.skip(0) == s@);
    while from < chars.len() && is_whitespace(chars[from])
        invariant
            chars@ == s@,
            from <= chars.len(),
            trim_start(s@) == trim_start(s@.skip(from as int)),
        decreases chars.len() - from,
    {
        assert(s@.skip(from as int).drop_first() == s@.skip(from + 1));
        from = from + 1;
    }
    let mut to: usize = chars.len();
    assert(trim_start(s@) == s@.skip(from as int));
    assert(s@.subrange(from as int, to as int) == s@.skip(from as int));
    while from < to && is_whitespace(chars[to - 1])
        invariant
            chars@ == s@,
            from <= to <= chars.len(),
            trimmed(s@) == trim_end(s@.subrange(from as int, to as int)),
        decreases to,
    {
        assert(s@.subrange(from as int, to as int).drop_last() == s@.subrange(
            from as int,
            to - 1,
        ));
        to = to - 1;
    }
    s.substring_char(from, to).to_owned()
}

/// Splits a text at white space.
pub fn split_whitespace(s: &str) -> (res: Vec<String>)
    ensures
        texts(res@) == words(s@),
{
    let chars = chars_of(s);
    let mut res: Vec<String> = Vec::new();
    // The word that the character before position `i` belongs to, if it belongs
    // to one, started at `start`.
    let mut start: usize = 0;
    let mut in_word: bool = false;
    let mut i: usize = 0;
    assert(texts(res@) =~= words(s@.take(0)));
    while i < chars.len()
        invariant
            chars@ == s@,
            start <= i <= chars.len(),
            in_word ==> start < i,
            in_word == (i > 0 && !is_white(s@[i - 1])),
            words(s@.take(i as int)) == if in_word {
                texts(res@).push(s@.subrange(start as int, i as int))
            } else {
                texts(res@)
            },
        decreases chars.len() - i,
    {
        let ghost head = s@.take(i as int);
        let ghost longer = s@.take(i + 1);
        assert(longer.drop_last() == head);
        assert(longer.last() == s@[i as int]);
        if is_whitespace(chars[i]) {
            if in_word {
                let ghost before = texts(res@);
                let word = s.substring_char(start, i).to_owned();
                res.push(word);
                assert(texts(res@) == before.push(s@.subrange(start as int, i as int)));
                in_word = false;
            }
        } else {
            if !in_word {
                start = i;
                in_word = true;
                assert(s@.subrange(start as int, i + 1) == seq![s@[i as int]]);
            } else {
                let ghost done = texts(res@);
                let ghost open = s@.subrange(start as int, i as int);
                assert(done.push(open).drop_last() == done);
                assert(s@.subrange(start as int, i + 1) == open.push(s@[i as int]));
            }
        }
        i = i + 1;
    }
    assert(s@.take(i as int) == s@);
    if in_word {
        let ghost before = texts(res@);
        let word = s.substring_char(start, i).to_owned();
        res.push(word);
        assert(texts(res@) == before.push(s@.subrange(start as int, i as int)));
    }
    res
}

/// The fields of a text between its separators, in order: one more than the
/// separators. A further separator starts an empty field, any other character
/// makes the last field longer.
pub open spec fn fields(s: Seq<char>, separator: char) -> Seq<Seq<char>>
    decreases s.len(),
{
    if s.len() == 0 {
        seq![seq![]]
    } else {
        let before = fields(s.drop_last(), separator);
        if s.last() == separator {
            before.push(seq![])
        } else {
            before.drop_last().push(before.last().push(s.last()))
        }
    }
}

/// Splits a text at every separator.
pub fn split(s: &str, separator: char) -> (res: Vec<String>)
    ensures
        texts(res@) == fields(s@, separator),
{
    let chars = chars_of(s);
    let mut res: Vec<String> = Vec::new();
    // Where the field that is not in `res` yet starts.
    let mut start: usize = 0;
    let mut i: usize = 0;
    assert(fields(s@.take(0), separator) =~~= texts(res@).push(s@.subrange(0, 0)));
    while i < chars.len()
        invariant
            chars@ == s@,
            start <= i <= chars.len(),
            fields(s@.take(i as int), separator) == texts(res@).push(
                s@.subrange(start as int, i as int),
            ),
        decreases chars.len() - i,
    {
        let ghost longer = s@.take(i + 1);
        let ghost done = texts(res@);
        let ghost open = s@.subrange(start as int, i as int);
        assert(longer.drop_last() == s@.take(i as int));
        assert(longer.last() == s@[i as int]);
        if chars[i] == separator {
            let field = s.substring_char(start, i).to_owned();
            res.push(field);
            start = i + 1;
            assert(texts(res@) == done.push(open));
            assert(s@.subrange(start as int, i + 1) == Seq::<char>::empty());
        } else {
            assert(done.push(open).drop_last() == done);
            assert(s@.subrange(start as int, i + 1) == open.push(s@[i as int]));
        }
        i = i + 1;
    }
    assert(s@.take(i as int) == s@);
    let ghost done = texts(res@);
    let field = s.substring_char(start, i).to_owned();
    res.push(field);
    assert(texts(res@) == done.push(s@.subrange(start as int, i as int)));
    res
}

/// A run of one character.
pub open spec fn run(n: nat, c: char) -> Seq<char> {
    Seq::new(n, |i: int| c)
}

/// A text with spaces behind it, so that it fills a column. A text that is wider
/// than the column stays as it is.
pub open spec fn padded(s: Seq<char>, width: nat) -> Seq<char> {
    if s.len() < width {
        s + run((width - s.len()) as nat, ' ')
    } else {
        s
    }
}

/// Appends `n` times the text of one character.
pub(crate) fn append_run(out: &mut String, n: usize, c: &str)
    requires
        c@.len() == 1,
    ensures
        final(out)@ == old(out)@ + run(n as nat, c@[0]),
{
    let ghost before = out@;
    let mut i: usize = 0;
    assert(out@ == before + run(0, c@[0]));
    while i < n
        invariant
            c@.len() == 1,
            i <= n,
            out@ == before + run(i as nat, c@[0]),
        decreases n - i,
    {
        out.append(c);
        i = i + 1;
        assert(out@ == before + run(i as nat, c@[0]));
    }
}

/// Appends a text, padded to the width of a column.
pub(crate) fn append_padded(out: &mut String, s: &str, width: usize)
    ensures
        final(out)@ == old(out)@ + padded(s@, width as nat),
{
    let n = s.unicode_len();
    out.append(s);
    if n < width {
        proof {
            reveal_strlit(" ");
        }
        append_run(out, width - n, " ");
        assert(out@ == old(out)@ + padded(s@, width as nat));
    }
}

/// The character for a digit.
pub open spec fn digit(d: int) -> char {
    if d == 0 {
        '0'
    } else if d == 1 {
        '1'
    } else if d == 2 {
        '2'
    } else if d == 3 {
        '3'
    } else if d == 4 {
        '4'
    } else if d == 5 {
        '5'
    } else if d == 6 {
        '6'
    } else if d == 7 {
        '7'
    } else if d == 8 {
        '8'
    } else {
        '9'
    }
}

/// The decimal digits of a natural number, without leading zeros.
pub open spec fn digits(n: nat) -> Seq<char>
    decreases n,
{
    if n < 10 {
        seq![digit(n as int)]
    } else {
        digits(n / 10).push(digit((n % 10) as int))
    }
}

/// A number in decimal, with a minus sign where it is negative.
pub open spec fn decimal(n: int) -> Seq<char> {
    if n < 0 {
        seq!['-'] + digits((-n) as nat)
    } else {
        digits(n as nat)
    }
}

fn digit_text(d: u64) -> (res: &'static str)
    requires
        d < 10,
    ensures
        res@ == seq![digit(d as int)],
{
    proof {
        reveal_strlit("0");
        reveal_strlit("1");
        reveal_strlit("2");
        reveal_strlit("3");
        reveal_strlit("4");
        reveal_strlit("5");
        reveal_strlit("6");
        reveal_strlit("7");
        reveal_strlit("8");
        reveal_strlit("9");
    }
    match d {
        0 => "0",
        1 => "1",
        2 => "2",
        3 => "3",
        4 => "4",
        5 => "5",
        6 => "6",
        7 => "7",
        8 => "8",
        _ => "9",
    }
}

/// Writes a natural number in decimal.
pub fn natural_text(n: u64) -> (res: String)
    ensures
        res@ == decimal(n as int),
    decreases n,
{
    if n < 10 {
        digit_text(n).to_owned()
    } else {
        let mut res = natural_text(n / 10);
        res.append(digit_text(n % 10));
        assert(res@ == digits((n / 10) as nat).push(digit((n % 10) as int)));
        res
    }
}

/// Writes an integer in decimal.
pub fn integer_text(n: i64) -> (res: String)
    ensures
        res@ == decimal(n as int),
{
    if n < 0 {
        proof {
            reveal_strlit("-");
        }
        let mut res = "-".to_owned();
        let magnitude: u64 = (-(n + 1)) as u64 + 1;
        res.append(natural_text(magnitude).as_str());
        assert(res@ == seq!['-'] + digits((-n) as nat));
        res
    } else {
        natural_text(n as u64)
    }
}

} // verus!
