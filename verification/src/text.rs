//! Text helpers: characters of a string, trimming, ASCII lower case and
//! decimal numbers.
use vstd::prelude::*;

verus! {

/// `String::push` appends the given character to the end of the string.
pub assume_specification[ String::push ](string: &mut String, ch: char)
    ensures
        final(string)@ == old(string)@.push(ch),
;

/// A character with the Unicode property `White_Space`.
pub open spec fn is_white_space(c: char) -> bool {
    let code = c as u32;
    ||| 0x09 <= code <= 0x0d
    ||| code == 0x20
    ||| code == 0x85
    ||| code == 0xa0
    ||| code == 0x1680
    ||| 0x2000 <= code <= 0x200a
    ||| code == 0x2028
    ||| code == 0x2029
    ||| code == 0x202f
    ||| code == 0x205f
    ||| code == 0x3000
}

/// `text` without the white space it begins with.
pub open spec fn trimmed_start(text: Seq<char>) -> Seq<char>
    decreases text.len(),
{
    if text.len() > 0 && is_white_space(text.first()) {
        trimmed_start(text.drop_first())
    } else {
        text
    }
}

/// `text` without the white space it ends with.
pub open spec fn trimmed_end(text: Seq<char>) -> Seq<char>
    decreases text.len(),
{
    if text.len() > 0 && is_white_space(text.last()) {
        trimmed_end(text.drop_last())
    } else {
        text
    }
}

/// `text` without the white space at both ends.
pub open spec fn trimmed(text: Seq<char>) -> Seq<char> {
    trimmed_end(trimmed_start(text))
}

/// The lower case of an ASCII capital; every other character stays.
pub open spec fn ascii_lower(c: char) -> char {
    if 'A' <= c && c <= 'Z' {
        (c as u8 + 32) as u8 as char
    } else {
        c
    }
}

/// `text` with its ASCII capitals in lower case.
pub open spec fn lowercase(text: Seq<char>) -> Seq<char> {
    text.map_values(|c: char| ascii_lower(c))
}

/// The digit that stands for `n`.
pub open spec fn digit(n: nat) -> char {
    (48 + n) as u8 as char
}

/// `n` in decimal, without leading zeros.
pub open spec fn decimal(n: nat) -> Seq<char>
    decreases n,
{
    if n < 10 {
        seq![digit(n)]
    } else {
        decimal(n / 10).push(digit(n % 10))
    }
}

/// Tells white space from other characters.
pub fn is_whitespace(c: char) -> (res: bool)
    ensures
        res == is_white_space(c),
{
    let code: u32 = c as u32;
    (0x09 <= code && code <= 0x0d) || code == 0x20 || code == 0x85 || code == 0xa0 || code == 0x1680
        || (0x2000 <= code && code <= 0x200a) || code == 0x2028 || code == 0x2029 || code == 0x202f
        || code == 0x205f || code == 0x3000
}

/// The characters of `text`.
pub fn chars_of(text: &str) -> (chars: Vec<char>)
    ensures
        chars@ == text@,
{
    let mut chars: Vec<char> = Vec::new();
    for c in it: text.chars()
        invariant
            it.seq() == text@,
            chars@ == it.seq().take(it.index()),
    {
        chars.push(c);
    }
    chars
}

/// The string made of `chars[from..to]`.
pub fn text_of(chars: &Vec<char>, from: usize, to: usize) -> (text: String)
    requires
        from <= to <= chars@.len(),
    ensures
        text@ == chars@.subrange(from as int, to as int),
{
    let mut text = String::new();
    let mut i: usize = from;
    while i < to
        invariant
            from <= i <= to <= chars@.len(),
            text@ == chars@.subrange(from as int, i as int),
        decreases to - i,
    {
        text.push(chars[i]);
        i += 1;
    }
    text
}

/// Whether two texts hold the same characters.
pub fn same_text(a: &str, b: &str) -> (res: bool)
    ensures
        res == (a@ == b@),
{
    a.to_owned() == b.to_owned()
}

/// Whether `list` holds `text`.
pub fn contains_text(list: &Vec<String>, text: &str) -> (res: bool)
    ensures
        res == list.deep_view().contains(text@),
{
    let mut i: usize = 0;
    while i < list.len()
        invariant
            i <= list@.len(),
            forall|j: int| 0 <= j < i ==> list@[j]@ != text@,
        decreases list@.len() - i,
    {
        if same_text(list[i].as_str(), text) {
            assert(list.deep_view()[i as int] == text@);
            return true;
        }
        i += 1;
    }
    assert forall|j: int| 0 <= j < list.deep_view().len() implies list.deep_view()[j] != text@ by {
        assert(list.deep_view()[j] == list@[j]@);
    }
    false
}

proof fn lemma_trimmed_start(text: Seq<char>, n: int)
    requires
        0 <= n <= text.len(),
        forall|i: int| 0 <= i < n ==> is_white_space(#[trigger] text[i]),
        n < text.len() ==> !is_white_space(text[n]),
    ensures
        trimmed_start(text) == text.skip(n),
    decreases n,
{
    if n == 0 {
        assert(text.skip(0) == text);
    } else {
        assert(is_white_space(text[0]));
        let rest = text.drop_first();
        assert forall|i: int| 0 <= i < n - 1 implies is_white_space(#[trigger] rest[i]) by {
            assert(rest[i] == text[i + 1]);
        }
        lemma_trimmed_start(rest, n - 1);
        assert(rest.skip(n - 1) == text.skip(n));
    }
}

proof fn lemma_trimmed_end(text: Seq<char>, n: int)
    requires
        0 <= n <= text.len(),
        forall|i: int| n <= i < text.len() ==> is_white_space(#[trigger] text[i]),
        n > 0 ==> !is_white_space(text[n - 1]),
    ensures
        trimmed_end(text) == text.take(n),
    decreases text.len() - n,
{
    if n == text.len() {
        assert(text.take(n) == text);
    } else {
        assert(is_white_space(text[text.len() - 1]));
        lemma_trimmed_end(text.drop_last(), n);
        assert(text.drop_last().take(n) == text.take(n));
    }
}

/// `text` without the white space at both ends.
pub fn trim(text: &str) -> (res: String)
    ensures
        res@ == trimmed(text@),
{
    let chars = chars_of(text);
    let mut from: usize = 0;
    while from < chars.len() && is_whitespace(chars[from])
        invariant
            from <= chars@.len(),
            forall|i: int| 0 <= i < from ==> is_white_space(#[trigger] chars@[i]),
        decreases chars@.len() - from,
    {
        from += 1;
    }
    let mut to: usize = chars.len();
    while from < to && is_whitespace(chars[to - 1])
        invariant
            from <= to <= chars@.len(),
            forall|i: int| to <= i < chars@.len() ==> is_white_space(#[trigger] chars@[i]),
        decreases to,
    {
        to -= 1;
    }
    proof {
        lemma_trimmed_start(text@, from as int);
        let rest = text@.skip(from as int);
        lemma_trimmed_end(rest, to - from);
        assert(rest.take(to - from) == text@.subrange(from as int, to as int));
    }
    text_of(&chars, from, to)
}

/// Whether `text` is empty or nothing but white space.
pub fn is_blank(text: &str) -> (res: bool)
    ensures
        res == (trimmed(text@).len() == 0),
{
    trim(text).as_str().is_empty()
}

/// `text` with its ASCII capitals in lower case.
pub fn to_lowercase(text: &str) -> (res: String)
    ensures
        res@ == lowercase(text@),
{
    let mut res = String::new();
    let chars = chars_of(text);
    let mut i: usize = 0;
    while i < chars.len()
        invariant
            i <= chars@.len(),
            chars@ == text@,
            res@ == lowercase(text@.take(i as int)),
        decreases chars@.len() - i,
    {
        let c = chars[i];
        if 'A' <= c && c <= 'Z' {
            res.push((c as u8 + 32) as char);
        } else {
            res.push(c);
        }
        i += 1;
        assert(res@ == lowercase(text@.take(i as int)));
    }
    assert(text@.take(i as int) == text@);
    res
}

/// `n` in decimal.
pub fn decimal_text(n: u64) -> (res: String)
    ensures
        res@ == decimal(n as nat),
    decreases n,
{
    let last = (48 + (n % 10) as u8) as char;
    let mut res = if n < 10 {
        String::new()
    } else {
        decimal_text(n / 10)
    };
    res.push(last);
    assert(n < 10 ==> res@ == seq![digit(n as nat)]);
    res
}

/// Text that neither begins nor ends with white space is its own trimmed form.
pub proof fn trimmed_is_identity(text: Seq<char>)
    requires
        text.len() > 0 ==> !is_white_space(text.first()) && !is_white_space(text.last()),
    ensures
        trimmed(text) == text,
{
}

proof fn lemma_trimmed_start_ends(text: Seq<char>)
    ensures
        trimmed_start(text).len() > 0 ==> !is_white_space(trimmed_start(text).first()),
    decreases text.len(),
{
    if text.len() > 0 && is_white_space(text.first()) {
        lemma_trimmed_start_ends(text.drop_first());
    }
}

proof fn lemma_trimmed_end_ends(text: Seq<char>)
    ensures
        trimmed_end(text).len() > 0 ==> !is_white_space(trimmed_end(text).last()) && trimmed_end(text).first()
            == text.first(),
    decreases text.len(),
{
    if text.len() > 0 && is_white_space(text.last()) {
        lemma_trimmed_end_ends(text.drop_last());
    }
}

/// Trimmed text neither begins nor ends with white space.
pub proof fn trimmed_has_no_outer_space(text: Seq<char>)
    ensures
        trimmed(text).len() > 0 ==> !is_white_space(trimmed(text).first()) && !is_white_space(
            trimmed(text).last(),
        ),
{
    lemma_trimmed_start_ends(text);
    lemma_trimmed_end_ends(trimmed_start(text));
}

/// Trimming twice is the same as trimming once.
pub proof fn trimmed_is_idempotent(text: Seq<char>)
    ensures
        trimmed(trimmed(text)) == trimmed(text),
{
    trimmed_has_no_outer_space(text);
    trimmed_is_identity(trimmed(text));
}

/// A decimal number is made of digits.
pub proof fn decimal_is_digits(n: nat)
    ensures
        decimal(n).len() >= 1,
        forall|i: int| 0 <= i < decimal(n).len() ==> '0' <= #[trigger] decimal(n)[i] <= '9',
    decreases n,
{
    if n >= 10 {
        decimal_is_digits(n / 10);
    }
}

/// Different numbers are written differently.
pub proof fn decimal_is_injective(a: nat, b: nat)
    requires
        decimal(a) == decimal(b),
    ensures
        a == b,
    decreases a,
{
    reveal_with_fuel(decimal, 2);
    lemma_decimal_len(a);
    lemma_decimal_len(b);
    assert(decimal(a).last() == digit(a % 10));
    assert(decimal(b).last() == digit(b % 10));
    if a >= 10 {
        assert(decimal(a).drop_last() == decimal(a / 10));
        assert(decimal(b).drop_last() == decimal(b / 10));
        decimal_is_injective(a / 10, b / 10);
    }
}

proof fn lemma_decimal_len(n: nat)
    ensures
        decimal(n).len() >= 1,
        n >= 10 <==> decimal(n).len() >= 2,
    decreases n,
{
    if n >= 10 {
        lemma_decimal_len(n / 10);
    }
}

/// Trimming takes off white space at both ends and nothing else: what is taken off
/// has the code points of white space, and what is left neither begins nor ends
/// with one of them.
pub proof fn trimming_takes_off_white_space(text: Seq<char>)
    ensures
        ({
            let white = |c: char|
                {
                    let n = c as u32;
                    9 <= n <= 13 || n == 32 || n == 133 || n == 160 || n == 5760 || 8192 <= n <= 8202 || n == 8232
                        || n == 8233 || n == 8239 || n == 8287 || n == 12288
                };
            exists|from: int, to: int|
                {
                    &&& 0 <= from <= to <= text.len()
                    &&& trimmed(text) == #[trigger] text.subrange(from, to)
                    &&& forall|i: int| 0 <= i < from || to <= i < text.len() ==> white(#[trigger] text[i])
                    &&& from < to ==> !white(text[from]) && !white(text[to - 1])
                }
        }),
{
    let start = trimmed_start(text);
    let end = trimmed_end(start);
    lemma_trimmed_start_parts(text);
    lemma_trimmed_end_parts(start);
    let from = text.len() - start.len();
    let to = from + end.len();
    assert(text.subrange(from, to) == end);
    assert forall|i: int| 0 <= i < from || to <= i < text.len() implies is_white_space(#[trigger] text[i]) by {
        if i >= to {
            assert(text[i] == start[i - from]);
        }
    }
    trimmed_has_no_outer_space(text);
    if from < to {
        assert(text[from] == end[0] && text[to - 1] == end[end.len() - 1]);
    }
}

proof fn lemma_trimmed_start_parts(text: Seq<char>)
    ensures
        trimmed_start(text).len() <= text.len(),
        trimmed_start(text) == text.skip(text.len() - trimmed_start(text).len()),
        forall|i: int|
            0 <= i < text.len() - trimmed_start(text).len() ==> is_white_space(#[trigger] text[i]),
    decreases text.len(),
{
    if text.len() > 0 && is_white_space(text.first()) {
        let rest = text.drop_first();
        lemma_trimmed_start_parts(rest);
        assert forall|i: int| 0 <= i < text.len() - trimmed_start(text).len() implies is_white_space(
            #[trigger] text[i],
        ) by {
            if i > 0 {
                assert(text[i] == rest[i - 1]);
            }
        }
        assert(text.skip(text.len() - trimmed_start(text).len()) == rest.skip(rest.len() - trimmed_start(rest).len()));
    } else {
        assert(text.skip(0) == text);
    }
}

proof fn lemma_trimmed_end_parts(text: Seq<char>)
    ensures
        trimmed_end(text).len() <= text.len(),
        trimmed_end(text) == text.take(trimmed_end(text).len() as int),
        forall|i: int| trimmed_end(text).len() <= i < text.len() ==> is_white_space(#[trigger] text[i]),
    decreases text.len(),
{
    if text.len() > 0 && is_white_space(text.last()) {
        let rest = text.drop_last();
        lemma_trimmed_end_parts(rest);
        assert forall|i: int| trimmed_end(text).len() <= i < text.len() implies is_white_space(#[trigger] text[i]) by {
            if i < rest.len() {
                assert(text[i] == rest[i]);
            }
        }
        assert(text.take(trimmed_end(text).len() as int) == rest.take(trimmed_end(rest).len() as int));
    } else {
        assert(text.take(text.len() as int) == text);
    }
}

/// Lower case moves the capitals from A to Z by the distance between the two
/// alphabets and leaves every other character, and the length, alone.
pub proof fn lowercase_moves_capitals(text: Seq<char>)
    ensures
        lowercase(text).len() == text.len(),
        forall|i: int|
            0 <= i < text.len() ==> #[trigger] lowercase(text)[i] as int == if 65 <= text[i] as int <= 90 {
                text[i] as int + 32
            } else {
                text[i] as int
            },
{
}

/// The number that decimal digits stand for.
pub open spec fn number_of(digits: Seq<char>) -> int
    decreases digits.len(),
{
    if digits.len() == 0 {
        0
    } else {
        10 * number_of(digits.drop_last()) + (digits.last() as int - 48)
    }
}

/// A decimal number is made of the digits from 0 to 9, begins with 0 only if it is
/// zero, and reads back as the number it was made of.
pub proof fn decimal_reads_back(n: nat)
    ensures
        number_of(decimal(n)) == n,
        decimal(n).len() >= 1,
        forall|i: int| 0 <= i < decimal(n).len() ==> 48 <= #[trigger] decimal(n)[i] as int <= 57,
        decimal(n)[0] as int == 48 ==> n == 0 && decimal(n).len() == 1,
    decreases n,
{
    reveal_with_fuel(number_of, 2);
    decimal_is_digits(n);
    if n >= 10 {
        decimal_reads_back(n / 10);
        assert(decimal(n).drop_last() == decimal(n / 10));
        assert(decimal(n)[0] == decimal(n / 10)[0]);
    } else {
        assert(decimal(n).drop_last().len() == 0);
    }
    assert forall|i: int| 0 <= i < decimal(n).len() implies 48 <= #[trigger] decimal(n)[i] as int <= 57 by {
        assert('0' <= decimal(n)[i] <= '9');
    }
}

} // verus!
