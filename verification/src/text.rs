//! Text operations over the characters of a string.

use vstd::prelude::*;
use vstd::string::*;

verus! {

broadcast use vstd::string::group_string_axioms;

/// `String::push` appends one character at the end of the string.
pub assume_specification[ String::push ](s: &mut String, c: char)
    ensures
        final(s)@ == old(s)@.push(c),
;

/// The parts of a list one after another, with `sep` between each two.
pub open spec fn joined(parts: Seq<Seq<char>>, sep: Seq<char>) -> Seq<char>
    decreases parts.len(),
{
    if parts.len() == 0 {
        Seq::empty()
    } else if parts.len() == 1 {
        parts[0]
    } else {
        joined(parts.drop_last(), sep) + sep + parts.last()
    }
}

/// The pieces between the occurrences of `c`: always one more than there are occurrences.
pub open spec fn pieces(s: Seq<char>, c: char) -> Seq<Seq<char>>
    decreases s.len(),
{
    if s.len() == 0 {
        seq![Seq::empty()]
    } else {
        let before = pieces(s.drop_last(), c);
        if s.last() == c {
            before.push(Seq::empty())
        } else {
            before.drop_last().push(before.last().push(s.last()))
        }
    }
}

/// The characters with Unicode's `White_Space` property.
pub open spec fn is_space(c: char) -> bool {
    let n = c as u32;
    ||| 9 <= n <= 13
    ||| n == 32
    ||| n == 0x85
    ||| n == 0xA0
    ||| n == 0x1680
    ||| 0x2000 <= n <= 0x200A
    ||| n == 0x2028
    ||| n == 0x2029
    ||| n == 0x202F
    ||| n == 0x205F
    ||| n == 0x3000
}

/// `s` without the longest prefix whose characters all meet `drop`.
pub open spec fn dropped_front(s: Seq<char>, drop: spec_fn(char) -> bool) -> Seq<char>
    decreases s.len(),
{
    if s.len() > 0 && drop(s[0]) {
        dropped_front(s.skip(1), drop)
    } else {
        s
    }
}

/// `s` without the longest suffix whose characters all meet `drop`.
pub open spec fn dropped_back(s: Seq<char>, drop: spec_fn(char) -> bool) -> Seq<char>
    decreases s.len(),
{
    if s.len() > 0 && drop(s.last()) {
        dropped_back(s.drop_last(), drop)
    } else {
        s
    }
}

/// `s` without leading and trailing whitespace.
pub open spec fn trimmed(s: Seq<char>) -> Seq<char> {
    dropped_back(dropped_front(s, |c: char| is_space(c)), |c: char| is_space(c))
}

/// A character that ends a protocol line or pads it: newline, carriage return or blank.
pub open spec fn is_line_padding(c: char) -> bool {
    c == '\n' || c == '\r' || c == ' '
}

/// `s` without leading and trailing line padding.
pub open spec fn line_trimmed(s: Seq<char>) -> Seq<char> {
    dropped_back(dropped_front(s, |c: char| is_line_padding(c)), |c: char| is_line_padding(c))
}

/// The decimal digit of a number below ten.
pub open spec fn digit(d: nat) -> char {
    (48 + d) as char
}

/// The decimal text of a number, without leading zeros.
pub open spec fn decimal(n: nat) -> Seq<char>
    decreases n,
{
    if n < 10 {
        seq![digit(n)]
    } else {
        decimal(n / 10).push(digit(n % 10))
    }
}

pub open spec fn is_digit(c: char) -> bool {
    '0' <= c <= '9'
}

/// Whether every character is a decimal digit.
pub open spec fn all_digits(s: Seq<char>) -> bool {
    forall|i: int| 0 <= i < s.len() ==> is_digit(#[trigger] s[i])
}

/// The number that a text of decimal digits stands for.
pub open spec fn value_of_digits(s: Seq<char>) -> nat
    decreases s.len(),
{
    if s.len() == 0 {
        0
    } else {
        10 * value_of_digits(s.drop_last()) + ((s.last() as int - 48) as nat)
    }
}

/// Why a text is not a number of the machine's word size.
#[derive(Clone, Copy, PartialEq, Eq, Structural, Debug)]
pub enum NumberError {
    /// There are no characters.
    Empty,
    /// A character is not a decimal digit.
    InvalidDigit,
    /// The number is larger than the largest machine word.
    TooLarge,
}

impl NumberError {
    pub open spec fn spec_message(self) -> Seq<char> {
        match self {
            NumberError::Empty => "cannot parse integer from empty string"@,
            NumberError::InvalidDigit => "invalid digit found in string"@,
            NumberError::TooLarge => "number too large to fit in target type"@,
        }
    }

    /// The error in words.
    pub fn message(&self) -> (text: String)
        ensures
            text@ == self.spec_message(),
    {
        match self {
            NumberError::Empty => "cannot parse integer from empty string".to_owned(),
            NumberError::InvalidDigit => "invalid digit found in string".to_owned(),
            NumberError::TooLarge => "number too large to fit in target type".to_owned(),
        }
    }
}

/// The digits of a number text: the text without one leading plus sign, unless that sign is all
/// there is.
pub open spec fn number_digits(s: Seq<char>) -> Seq<char> {
    if s.len() > 1 && s[0] == '+' {
        s.skip(1)
    } else {
        s
    }
}

/// What reading `s` as a decimal machine word gives.
pub open spec fn parsed_number(s: Seq<char>) -> Result<nat, NumberError> {
    let digits = number_digits(s);
    if s.len() == 0 {
        Err(NumberError::Empty)
    } else if !all_digits(digits) {
        if digits_overflow_first(digits) {
            Err(NumberError::TooLarge)
        } else {
            Err(NumberError::InvalidDigit)
        }
    } else if value_of_digits(digits) > usize::MAX {
        Err(NumberError::TooLarge)
    } else {
        Ok(value_of_digits(digits))
    }
}

/// Whether the digits before the first other character already exceed a machine word.
pub open spec fn digits_overflow_first(s: Seq<char>) -> bool {
    exists|k: int|
        0 <= k <= s.len() && all_digits(#[trigger] s.take(k)) && value_of_digits(s.take(k))
            > usize::MAX
}

/// The characters of a string.
pub fn chars_of(s: &str) -> (chars: Vec<char>)
    ensures
        chars@ == s@,
{
    let mut chars: Vec<char> = Vec::new();
    for c in it: s.chars()
        invariant
            it.seq() == s@,
            chars@ == s@.take(it.index() as int),
    {
        chars.push(c);
        assert(s@.take(it.index() as int).push(c) =~= s@.take(it.index() as int + 1));
    }
    assert(s@.take(s@.len() as int) =~= s@);
    chars
}

/// The string made of the characters from `from` up to but excluding `to`.
pub fn text_between(chars: &Vec<char>, from: usize, to: usize) -> (s: String)
    requires
        from <= to <= chars@.len(),
    ensures
        s@ == chars@.subrange(from as int, to as int),
{
    let mut s = String::new();
    let mut i: usize = from;
    while i < to
        invariant
            from <= i <= to <= chars@.len(),
            s@ == chars@.subrange(from as int, i as int),
        decreases to - i,
    {
        s.push(chars[i]);
        assert(chars@.subrange(from as int, i as int).push(chars@[i as int]) =~= chars@.subrange(
            from as int,
            i + 1,
        ));
        i += 1;
    }
    s
}

/// Whether two strings hold the same characters.
pub fn same(a: &str, b: &str) -> (equal: bool)
    ensures
        equal == (a@ == b@),
{
    a.to_owned() == b.to_owned()
}

/// Whether `s` begins with `prefix`.
pub fn starts_with(s: &str, prefix: &str) -> (yes: bool)
    ensures
        yes == prefix@.is_prefix_of(s@),
{
    let chars = chars_of(s);
    let wanted = chars_of(prefix);
    if chars.len() < wanted.len() {
        return false;
    }
    let mut i: usize = 0;
    while i < wanted.len()
        invariant
            chars@ == s@,
            wanted@ == prefix@,
            wanted@.len() <= chars@.len(),
            i <= wanted@.len(),
            forall|j: int| 0 <= j < i ==> wanted@[j] == chars@[j],
        decreases wanted@.len() - i,
    {
        if chars[i] != wanted[i] {
            assert(prefix@[i as int] != s@.subrange(0, prefix@.len() as int)[i as int]);
            return false;
        }
        i += 1;
    }
    assert(prefix@ =~= s@.subrange(0, prefix@.len() as int));
    true
}

/// Whether `c` occurs in `s`.
pub fn contains_char(s: &str, c: char) -> (yes: bool)
    ensures
        yes == s@.contains(c),
{
    let chars = chars_of(s);
    let mut i: usize = 0;
    while i < chars.len()
        invariant
            chars@ == s@,
            i <= chars@.len(),
            forall|j: int| 0 <= j < i ==> chars@[j] != c,
        decreases chars@.len() - i,
    {
        if chars[i] == c {
            return true;
        }
        i += 1;
    }
    false
}

/// What precedes and what follows the first occurrence of `c` in `s`.
pub open spec fn halves(s: Seq<char>, c: char) -> Option<(Seq<char>, Seq<char>)> {
    match s.index_of_first(c) {
        Some(i) => Some((s.take(i), s.skip(i + 1))),
        None => None,
    }
}

/// Cuts `s` at the first occurrence of `c`, which neither half keeps.
pub fn split_once(s: &str, c: char) -> (cut: Option<(String, String)>)
    ensures
        match cut {
            Some((before, after)) => halves(s@, c) == Some((before@, after@)),
            None => halves(s@, c) is None,
        },
        cut is Some <==> s@.contains(c),
        cut matches Some((before, after)) ==> !before@.contains(c) && s@ == before@.push(c)
            + after@,
{
    let chars = chars_of(s);
    let mut i: usize = 0;
    proof {
        s@.index_of_first_ensures(c);
    }
    while i < chars.len()
        invariant
            chars@ == s@,
            i <= chars@.len(),
            forall|j: int| 0 <= j < i ==> chars@[j] != c,
        decreases chars@.len() - i,
    {
        if chars[i] == c {
            proof {
                s@.index_of_first_ensures(c);
                assert(s@.index_of_first(c) == Some(i as int));
                assert(chars@.subrange(0, i as int) =~= s@.take(i as int));
                assert(chars@.subrange(i + 1, chars@.len() as int) =~= s@.skip(i + 1));
            }
            let before = text_between(&chars, 0, i);
            let after = text_between(&chars, i + 1, chars.len());
            assert(s@ =~= before@.push(c) + after@);
            return Some((before, after));
        }
        i += 1;
    }
    None
}

/// The pieces of `s` between the occurrences of `c`.
pub fn split(s: &str, c: char) -> (parts: Vec<String>)
    ensures
        parts.deep_view() == pieces(s@, c),
{
    let chars = chars_of(s);
    let mut parts: Vec<String> = Vec::new();
    let mut piece = String::new();
    let mut i: usize = 0;
    assert(parts.deep_view().push(piece@) =~= pieces(chars@.take(0), c));
    while i < chars.len()
        invariant
            i <= chars@.len(),
            parts.deep_view().push(piece@) == pieces(chars@.take(i as int), c),
        decreases chars@.len() - i,
    {
        let ghost before = pieces(chars@.take(i as int), c);
        assert(chars@.take(i + 1).drop_last() =~= chars@.take(i as int));
        assert(before.drop_last() =~= parts.deep_view());
        if chars[i] == c {
            let ghost old_parts = parts.deep_view();
            parts.push(piece);
            assert(parts.deep_view() =~= old_parts.push(piece@));
            piece = String::new();
        } else {
            piece.push(chars[i]);
        }
        i += 1;
    }
    assert(chars@.take(chars@.len() as int) =~= s@);
    let ghost old_parts = parts.deep_view();
    parts.push(piece);
    assert(parts.deep_view() =~= old_parts.push(piece@));
    parts
}

/// The parts one after another, with `sep` between each two.
pub fn join(parts: &Vec<String>, sep: &str) -> (s: String)
    ensures
        s@ == joined(parts.deep_view(), sep@),
{
    let mut s = String::new();
    let mut i: usize = 0;
    let ghost views = parts.deep_view();
    while i < parts.len()
        invariant
            i <= parts@.len(),
            views == parts.deep_view(),
            s@ == joined(views.take(i as int), sep@),
        decreases parts@.len() - i,
    {
        assert(views.take(i + 1).drop_last() =~= views.take(i as int));
        if i > 0 {
            s.append(sep);
        }
        s.append(parts[i].as_str());
        i += 1;
    }
    assert(views.take(parts@.len() as int) =~= views);
    s
}

fn is_space_char(c: char) -> (yes: bool)
    ensures
        yes == is_space(c),
{
    let n: u32 = c as u32;
    (9 <= n && n <= 13) || n == 32 || n == 0x85 || n == 0xA0 || n == 0x1680 || (0x2000 <= n && n
        <= 0x200A) || n == 0x2028 || n == 0x2029 || n == 0x202F || n == 0x205F || n == 0x3000
}

/// Removes leading and trailing whitespace.
pub fn trim(s: &str) -> (t: String)
    ensures
        t@ == trimmed(s@),
{
    let chars = chars_of(s);
    let ghost drop = |c: char| is_space(c);
    assert(chars@.skip(0) =~= chars@);
    let mut from: usize = 0;
    while from < chars.len() && is_space_char(chars[from])
        invariant
            drop == (|c: char| is_space(c)),
            from <= chars@.len(),
            dropped_front(chars@, drop) == dropped_front(chars@.skip(from as int), drop),
        decreases chars@.len() - from,
    {
        assert(chars@.skip(from as int).skip(1) =~= chars@.skip(from + 1));
        from += 1;
    }
    let mut to: usize = chars.len();
    assert(chars@.subrange(from as int, to as int) =~= chars@.skip(from as int));
    while from < to && is_space_char(chars[to - 1])
        invariant
            drop == (|c: char| is_space(c)),
            from <= to <= chars@.len(),
            dropped_back(chars@.skip(from as int), drop) == dropped_back(
                chars@.subrange(from as int, to as int),
                drop,
            ),
        decreases to - from,
    {
        assert(chars@.subrange(from as int, to as int).drop_last() =~= chars@.subrange(
            from as int,
            to - 1,
        ));
        to -= 1;
    }
    text_between(&chars, from, to)
}

fn is_padding_char(c: char) -> (yes: bool)
    ensures
        yes == is_line_padding(c),
{
    c == '\n' || c == '\r' || c == ' '
}

/// Removes leading and trailing line padding.
pub fn trim_line(s: &str) -> (t: String)
    ensures
        t@ == line_trimmed(s@),
{
    let chars = chars_of(s);
    let ghost drop = |c: char| is_line_padding(c);
    assert(chars@.skip(0) =~= chars@);
    let mut from: usize = 0;
    while from < chars.len() && is_padding_char(chars[from])
        invariant
            drop == (|c: char| is_line_padding(c)),
            from <= chars@.len(),
            dropped_front(chars@, drop) == dropped_front(chars@.skip(from as int), drop),
        decreases chars@.len() - from,
    {
        assert(chars@.skip(from as int).skip(1) =~= chars@.skip(from + 1));
        from += 1;
    }
    let mut to: usize = chars.len();
    assert(chars@.subrange(from as int, to as int) =~= chars@.skip(from as int));
    while from < to && is_padding_char(chars[to - 1])
        invariant
            drop == (|c: char| is_line_padding(c)),
            from <= to <= chars@.len(),
            dropped_back(chars@.skip(from as int), drop) == dropped_back(
                chars@.subrange(from as int, to as int),
                drop,
            ),
        decreases to - from,
    {
        assert(chars@.subrange(from as int, to as int).drop_last() =~= chars@.subrange(
            from as int,
            to - 1,
        ));
        to -= 1;
    }
    text_between(&chars, from, to)
}

fn digit_char(d: usize) -> (c: char)
    requires
        d < 10,
    ensures
        c == digit(d as nat),
{
    let byte: u8 = 48 + d as u8;
    byte as char
}

/// The decimal text of a machine word.
pub fn number_text(n: usize) -> (s: String)
    ensures
        s@ == decimal(n as nat),
    decreases n,
{
    if n < 10 {
        let mut s = String::new();
        s.push(digit_char(n));
        assert(s@ =~= seq![digit(n as nat)]);
        s
    } else {
        let mut s = number_text(n / 10);
        s.push(digit_char(n % 10));
        s
    }
}

proof fn lemma_value_grows(s: Seq<char>, k: int)
    requires
        0 <= k <= s.len(),
        all_digits(s),
    ensures
        value_of_digits(s.take(k)) <= value_of_digits(s),
    decreases s.len(),
{
    if k < s.len() {
        assert(s.drop_last().take(k) =~= s.take(k));
        assert(is_digit(s.last()));
        lemma_value_grows(s.drop_last(), k);
    } else {
        assert(s.take(k) =~= s);
    }
}

/// Reads a decimal machine word.
pub fn parse_number(s: &str) -> (n: Result<usize, NumberError>)
    ensures
        match n {
            Ok(value) => parsed_number(s@) == Ok::<nat, NumberError>(value as nat),
            Err(error) => parsed_number(s@) == Err::<nat, NumberError>(error),
        },
{
    let chars = chars_of(s);
    if chars.len() == 0 {
        return Err(NumberError::Empty);
    }
    let start: usize = if chars.len() > 1 && chars[0] == '+' { 1 } else { 0 };
    let ghost digits = number_digits(s@);
    assert(digits =~= chars@.skip(start as int));
    let mut value: usize = 0;
    let mut i: usize = start;
    assert(digits.take(0) =~= Seq::<char>::empty());
    while i < chars.len()
        invariant
            chars@ == s@,
            s@.len() > 0,
            digits == number_digits(s@),
            start <= i <= chars@.len(),
            digits == chars@.skip(start as int),
            all_digits(digits.take(i - start)),
            value == value_of_digits(digits.take(i - start)),
        decreases chars@.len() - i,
    {
        let c = chars[i];
        let ghost k = i - start;
        assert(digits[k] == c);
        assert(digits.take(k + 1).drop_last() =~= digits.take(k));
        if !('0' <= c && c <= '9') {
            proof {
                assert(!all_digits(digits)) by {
                    assert(!is_digit(digits[k]));
                }
                assert forall|j: int|
                    0 <= j <= digits.len() && all_digits(#[trigger] digits.take(j)) implies
                    value_of_digits(digits.take(j)) <= usize::MAX by {
                    if j > k {
                        assert(is_digit(digits.take(j)[k]));
                    } else {
                        lemma_value_grows(digits.take(k), j);
                        assert(digits.take(k).take(j) =~= digits.take(j));
                    }
                }
            }
            return Err(NumberError::InvalidDigit);
        }
        assert(all_digits(digits.take(k + 1))) by {
            assert forall|j: int| 0 <= j < k + 1 implies is_digit(
                #[trigger] digits.take(k + 1)[j],
            ) by {
                if j < k {
                    assert(is_digit(digits.take(k)[j]));
                }
            }
        }
        let d: usize = (c as u32 - 48) as usize;
        if value > (usize::MAX - d) / 10 {
            proof {
                if all_digits(digits) {
                    lemma_value_grows(digits, k + 1);
                }
                assert(value_of_digits(digits.take(k + 1)) > usize::MAX);
            }
            return Err(NumberError::TooLarge);
        }
        value = value * 10 + d;
        i += 1;
    }
    assert(digits.take(digits.len() as int) =~= digits);
    Ok(value)
}

proof fn lemma_decimal_digits(n: nat)
    ensures
        decimal(n).len() > 0,
        all_digits(decimal(n)),
        value_of_digits(decimal(n)) == n,
    decreases n,
{
    let text = decimal(n);
    if n < 10 {
        assert(text.drop_last() =~= Seq::<char>::empty());
        assert(value_of_digits(text.drop_last()) == 0);
        assert(text.last() as int == 48 + n);
    } else {
        lemma_decimal_digits(n / 10);
        assert(text.drop_last() =~= decimal(n / 10));
        assert(text.last() as int == 48 + n % 10);
        assert forall|i: int| 0 <= i < text.len() implies is_digit(#[trigger] text[i]) by {
            if i < text.len() - 1 {
                assert(text[i] == decimal(n / 10)[i]);
            }
        }
    }
}

/// A machine word's decimal text is read back as that word, and begins with a digit.
pub proof fn law_numbers_are_read_back(n: nat)
    requires
        n <= usize::MAX,
    ensures
        parsed_number(decimal(n)) == Ok::<nat, NumberError>(n),
        decimal(n).len() > 0,
        is_digit(decimal(n)[0]),
{
    lemma_decimal_digits(n);
}

/// Whether a list holds a text.
pub fn contains_text(texts: &Vec<String>, text: &String) -> (yes: bool)
    ensures
        yes == texts.deep_view().contains(text@),
{
    let mut i: usize = 0;
    while i < texts.len()
        invariant
            i <= texts@.len(),
            forall|j: int| 0 <= j < i ==> (#[trigger] texts.deep_view()[j]) != text@,
        decreases texts@.len() - i,
    {
        if texts[i] == *text {
            assert(texts.deep_view()[i as int] == text@);
            return true;
        }
        i += 1;
    }
    false
}

proof fn lemma_pieces_len(s: Seq<char>, c: char)
    ensures
        pieces(s, c).len() > 0,
    decreases s.len(),
{
    if s.len() > 0 {
        lemma_pieces_len(s.drop_last(), c);
    }
}

/// Joining the pieces between the occurrences of a character by that character gives the text back,
/// and no piece holds it.
pub proof fn law_pieces_join_up(s: Seq<char>, c: char)
    ensures
        pieces(s, c).len() > 0,
        joined(pieces(s, c), seq![c]) == s,
        forall|i: int| 0 <= i < pieces(s, c).len() ==> !(#[trigger] pieces(s, c)[i]).contains(c),
    decreases s.len(),
{
    let all = pieces(s, c);
    if s.len() == 0 {
        assert(joined(all, seq![c]) =~= s);
    } else {
        let shorter = s.drop_last();
        let before = pieces(shorter, c);
        law_pieces_join_up(shorter, c);
        assert(s =~= shorter.push(s.last()));
        if s.last() == c {
            assert(all.drop_last() =~= before);
            assert(joined(all, seq![c]) =~= s);
            assert forall|i: int| 0 <= i < all.len() implies !(#[trigger] all[i]).contains(c) by {
                if i < before.len() {
                    assert(all[i] == before[i]);
                }
            }
        } else {
            let last = before.last().push(s.last());
            assert(all.drop_last() =~= before.drop_last());
            if before.len() > 1 {
                assert(joined(before, seq![c]) == joined(before.drop_last(), seq![c]) + seq![c]
                    + before.last());
            }
            assert(joined(all, seq![c]) =~= s);
            assert forall|i: int| 0 <= i < all.len() implies !(#[trigger] all[i]).contains(c) by {
                if i < before.len() - 1 {
                    assert(all[i] == before[i]);
                } else {
                    assert(!before[before.len() - 1].contains(c));
                    if last.contains(c) {
                        let k = choose|k: int| 0 <= k < last.len() && last[k] == c;
                        assert(before.last()[k] == c);
                    }
                }
            }
        }
    }
}

/// The pieces of parts that were joined by a character are those parts, where none of them holds
/// the character.
pub proof fn law_joined_parts_are_pieces(parts: Seq<Seq<char>>, c: char)
    requires
        parts.len() > 0,
        forall|i: int| 0 <= i < parts.len() ==> !(#[trigger] parts[i]).contains(c),
    ensures
        pieces(joined(parts, seq![c]), c) == parts,
    decreases parts.len(),
{
    let last = parts.last();
    assert(!parts[parts.len() - 1].contains(c));
    if parts.len() == 1 {
        lemma_pieces_behind(Seq::empty(), last, c);
        assert(Seq::<char>::empty() + last =~= last);
        assert(pieces(Seq::empty(), c).drop_last() =~= Seq::empty());
        assert(Seq::<char>::empty() + last =~= last);
        assert(pieces(last, c) =~= parts);
    } else {
        let shorter = parts.drop_last();
        assert forall|i: int| 0 <= i < shorter.len() implies !(
        #[trigger] shorter[i]).contains(c) by {
            assert(!parts[i].contains(c));
        }
        law_joined_parts_are_pieces(shorter, c);
        let head = joined(shorter, seq![c]) + seq![c];
        assert(head.drop_last() =~= joined(shorter, seq![c]));
        assert(pieces(head, c) == shorter.push(Seq::empty()));
        lemma_pieces_behind(head, last, c);
        assert(pieces(head, c).drop_last() =~= shorter);
        assert(Seq::<char>::empty() + last =~= last);
        assert(joined(parts, seq![c]) =~= head + last);
        assert(shorter.push(last) =~= parts);
    }
}

/// Text without the character goes on with the last piece.
proof fn lemma_pieces_behind(head: Seq<char>, tail: Seq<char>, c: char)
    requires
        !tail.contains(c),
    ensures
        pieces(head + tail, c) == pieces(head, c).drop_last().push(pieces(head, c).last() + tail),
    decreases tail.len(),
{
    lemma_pieces_len(head, c);
    let before = pieces(head, c);
    if tail.len() == 0 {
        assert(head + tail =~= head);
        assert(before.last() + tail =~= before.last());
        assert(before.drop_last().push(before.last()) =~= before);
    } else {
        let shorter = tail.drop_last();
        assert(!shorter.contains(c)) by {
            if shorter.contains(c) {
                let k = choose|k: int| 0 <= k < shorter.len() && shorter[k] == c;
                assert(tail[k] == c);
            }
        }
        assert(tail.last() != c) by {
            assert(tail[tail.len() - 1] == tail.last());
        }
        lemma_pieces_behind(head, shorter, c);
        assert((head + tail).drop_last() =~= head + shorter);
        let so_far = before.drop_last().push(before.last() + shorter);
        assert(so_far.drop_last() =~= before.drop_last());
        assert((before.last() + shorter).push(tail.last()) =~= before.last() + tail);
    }
}

/// What is joined begins with the first part, ends with the last one, and has the separator between
/// each two.
pub proof fn law_joining(one: Seq<Seq<char>>, two: Seq<Seq<char>>, sep: Seq<char>, part: Seq<char>)
    ensures
        joined(Seq::empty(), sep).len() == 0,
        joined(seq![part], sep) == part,
        one.len() > 0 && two.len() > 0 ==> joined(one + two, sep) == joined(one, sep) + sep
            + joined(two, sep),
    decreases two.len(),
{
    if one.len() > 0 && two.len() > 0 {
        let all = one + two;
        assert(all.drop_last() =~= one + two.drop_last());
        assert(all.last() == two.last());
        if two.len() == 1 {
            assert(one + two.drop_last() =~= one);
        } else {
            law_joining(one, two.drop_last(), sep, part);
            assert(joined(all, sep) =~= joined(one, sep) + sep + joined(two, sep));
        }
    }
}

/// A text is cut at the first occurrence of a character: what comes before does not hold it, and both
/// halves with the character between them are the text.
pub proof fn law_halves(before: Seq<char>, c: char, after: Seq<char>)
    requires
        !before.contains(c),
    ensures
        halves(before.push(c) + after, c) == Some((before, after)),
        halves(before, c) is None,
{
    let text = before.push(c) + after;
    let at = before.len() as int;
    text.index_of_first_ensures(c);
    before.index_of_first_ensures(c);
    assert(text[at] == c);
    assert forall|i: int| 0 <= i < at implies text[i] != c by {
        assert(text[i] == before[i]);
    }
    assert(text.contains(c));
    let i = text.index_of_first(c)->0;
    assert(i == at);
    assert(text.take(at) =~= before);
    assert(text.skip(at + 1) =~= after);
}

proof fn lemma_dropped_front(s: Seq<char>, drop: spec_fn(char) -> bool)
    ensures
        dropped_front(s, drop).len() <= s.len(),
        s.skip(s.len() - dropped_front(s, drop).len()) == dropped_front(s, drop),
        forall|i: int|
            0 <= i < s.len() - dropped_front(s, drop).len() ==> drop(#[trigger] s[i]),
        dropped_front(s, drop).len() > 0 ==> !drop(dropped_front(s, drop)[0]),
    decreases s.len(),
{
    if s.len() > 0 && drop(s[0]) {
        lemma_dropped_front(s.skip(1), drop);
        let rest = dropped_front(s, drop);
        assert(s.skip(1).skip(s.len() - 1 - rest.len()) =~= s.skip(s.len() - rest.len()));
        assert forall|i: int| 0 <= i < s.len() - rest.len() implies drop(#[trigger] s[i]) by {
            if i > 0 {
                assert(s.skip(1)[i - 1] == s[i]);
            }
        }
    } else {
        assert(s.skip(0) =~= s);
    }
}

proof fn lemma_dropped_back(s: Seq<char>, drop: spec_fn(char) -> bool)
    ensures
        dropped_back(s, drop).len() <= s.len(),
        s.take(dropped_back(s, drop).len() as int) == dropped_back(s, drop),
        forall|i: int| dropped_back(s, drop).len() <= i < s.len() ==> drop(#[trigger] s[i]),
        dropped_back(s, drop).len() > 0 ==> !drop(dropped_back(s, drop).last()),
    decreases s.len(),
{
    if s.len() > 0 && drop(s.last()) {
        lemma_dropped_back(s.drop_last(), drop);
        let rest = dropped_back(s, drop);
        assert(s.drop_last().take(rest.len() as int) =~= s.take(rest.len() as int));
        assert forall|i: int| rest.len() <= i < s.len() implies drop(#[trigger] s[i]) by {
            if i < s.len() - 1 {
                assert(s.drop_last()[i] == s[i]);
            }
        }
    } else {
        assert(s.take(s.len() as int) =~= s);
    }
}

/// Whether a text is another one without padding at either end: what is left out at the ends is
/// padding, and what is left neither begins nor ends with any.
spec fn is_trimmed(
    s: Seq<char>,
    from: int,
    to: int,
    padding: spec_fn(char) -> bool,
) -> bool {
    &&& 0 <= from <= to <= s.len()
    &&& forall|i: int| 0 <= i < from ==> padding(#[trigger] s[i])
    &&& forall|i: int| to <= i < s.len() ==> padding(#[trigger] s[i])
    &&& from < to ==> !padding(s[from]) && !padding(s[to - 1])
}

/// Trimming leaves out whitespace at both ends and nothing else: the text between two places is the
/// trimmed text where there is only whitespace outside of them and none directly inside.
pub proof fn law_trimming(s: Seq<char>, from: int, to: int)
    requires
        0 <= from <= to <= s.len(),
        forall|i: int| 0 <= i < from ==> is_space(#[trigger] s[i]),
        forall|i: int| to <= i < s.len() ==> is_space(#[trigger] s[i]),
        from < to ==> !is_space(s[from]) && !is_space(s[to - 1]),
    ensures
        trimmed(s) == s.subrange(from, to),
{
    let drop = |c: char| is_space(c);
    assert forall|i: int| 0 <= i < from implies drop(#[trigger] s[i]) by {}
    lemma_trimmed(s, from, to, drop);
}

/// The same for the padding of lines.
pub proof fn law_line_trimming(s: Seq<char>, from: int, to: int)
    requires
        0 <= from <= to <= s.len(),
        forall|i: int|
            0 <= i < from ==> (#[trigger] s[i]) == '\n' || s[i] == '\r' || s[i] == ' ',
        forall|i: int|
            to <= i < s.len() ==> (#[trigger] s[i]) == '\n' || s[i] == '\r' || s[i] == ' ',
        from < to ==> s[from] != '\n' && s[from] != '\r' && s[from] != ' ' && s[to - 1] != '\n'
            && s[to - 1] != '\r' && s[to - 1] != ' ',
    ensures
        line_trimmed(s) == s.subrange(from, to),
{
    let drop = |c: char| is_line_padding(c);
    assert forall|i: int| 0 <= i < from implies drop(#[trigger] s[i]) by {}
    assert forall|i: int| to <= i < s.len() implies drop(#[trigger] s[i]) by {}
    lemma_trimmed(s, from, to, drop);
}

proof fn lemma_trimmed(s: Seq<char>, from: int, to: int, drop: spec_fn(char) -> bool)
    requires
        is_trimmed(s, from, to, drop),
    ensures
        dropped_back(dropped_front(s, drop), drop) == s.subrange(from, to),
{
    let front = dropped_front(s, drop);
    let both = dropped_back(front, drop);
    lemma_dropped_front(s, drop);
    lemma_dropped_back(front, drop);
    let start = s.len() - front.len();
    let end = start + both.len();
    assert(front =~= s.skip(start));
    if from < to {
        assert(start == from) by {
            if start > from {
                assert(drop(s[from]));
            }
            if start < from {
                assert(front[0] == s[start]);
                assert(drop(s[start]));
            }
        }
        assert(end == to) by {
            if end > to {
                assert(both.last() == s[end - 1]);
                assert(drop(s[end - 1]));
            }
            if end < to {
                assert(front[to - 1 - start] == s[to - 1]);
                assert(drop(front[to - 1 - start]));
            }
        }
        assert(both =~= s.subrange(from, to));
    } else {
        assert(both.len() == 0) by {
            if both.len() > 0 {
                let at = start;
                assert(front[0] == s[start]);
                assert(drop(s[start]));
            }
        }
        assert(both =~= s.subrange(from, to));
    }
}

/// Among the ASCII characters, whitespace is the blank, the tab and the four that break lines or
/// pages; and the further blanks of Unicode are whitespace.
pub proof fn law_whitespace(c: char)
    ensures
        (c as u32) < 128 ==> (is_space(c) <==> c == ' ' || c == '\t' || c == '\n' || c as u32 == 11
            || c as u32 == 12 || c == '\r'),
        c as u32 == 0xA0 || c as u32 == 0x2003 || c as u32 == 0x3000 ==> is_space(c),
        is_line_padding(c) ==> is_space(c),
{
}

/// Numbers are written in decimal: a digit for a number below ten, and ten times a number with a
/// digit added is the number's text with that digit behind it.
pub proof fn law_decimal(n: nat, d: nat)
    requires
        d < 10,
    ensures
        decimal(d).len() == 1,
        decimal(d)[0] as int == '0' as int + d,
        n > 0 ==> decimal(10 * n + d) == decimal(n) + decimal(d),
{
    if n > 0 {
        assert((10 * n + d) / 10 == n && (10 * n + d) % 10 == d);
        assert(decimal(n).push(digit(d)) =~= decimal(n) + decimal(d));
    }
}

/// A text of digits is read as the number that it writes in decimal; a plus sign in front changes
/// nothing.
pub proof fn law_numbers_are_read(s: Seq<char>, d: char)
    requires
        s.len() > 0,
        all_digits(s),
        is_digit(d),
    ensures
        parsed_number(s) is Ok && 10 * parsed_number(s)->Ok_0 + (d as int - '0' as int) <= usize::MAX
            ==> parsed_number(s.push(d)) == Ok::<nat, NumberError>(
            (10 * parsed_number(s)->Ok_0 + (d as int - '0' as int)) as nat,
        ),
        parsed_number(s) is Ok && 10 * parsed_number(s)->Ok_0 + (d as int - '0' as int) > usize::MAX
            ==> parsed_number(s.push(d)) == Err::<nat, _>(NumberError::TooLarge),
        parsed_number(s) is Err ==> parsed_number(s) == Err::<nat, _>(NumberError::TooLarge),
        parsed_number(seq!['+'] + s) == parsed_number(s),
        parsed_number(seq![d]) == Ok::<nat, NumberError>((d as int - '0' as int) as nat),
{
    let more = s.push(d);
    assert(is_digit(s[0]));
    assert(more[0] == s[0]);
    assert(more.drop_last() =~= s);
    assert forall|i: int| 0 <= i < more.len() implies is_digit(#[trigger] more[i]) by {
        if i < s.len() {
            assert(more[i] == s[i]);
        }
    }
    let signed = seq!['+'] + s;
    assert(signed.skip(1) =~= s);
    assert(number_digits(s) == s);
    let single = seq![d];
    assert(all_digits(single));
    assert(single.drop_last() =~= Seq::empty());
    assert(value_of_digits(single.drop_last()) == 0);
}

/// What is empty is no number, nor is a text with some other character in it, unless the digits in
/// front of that are too many already.
pub proof fn law_other_texts_are_no_numbers(s: Seq<char>, k: int)
    ensures
        s.len() == 0 ==> parsed_number(s) == Err::<nat, _>(NumberError::Empty),
        0 <= k < number_digits(s).len() && !is_digit(number_digits(s)[k]) ==> parsed_number(s)
            == Err::<nat, _>(NumberError::InvalidDigit) || parsed_number(s) == Err::<nat, _>(
            NumberError::TooLarge,
        ),
        0 <= k < number_digits(s).len() && k <= 1 && !is_digit(number_digits(s)[k])
            ==> parsed_number(s) == Err::<nat, _>(NumberError::InvalidDigit),
{
    let digits = number_digits(s);
    if 0 <= k < digits.len() && !is_digit(digits[k]) {
        assert(!all_digits(digits));
        if k <= 1 {
            assert forall|j: int|
                0 <= j <= digits.len() && all_digits(#[trigger] digits.take(j)) implies
                value_of_digits(digits.take(j)) <= usize::MAX by {
                if j > k {
                    assert(!is_digit(digits.take(j)[k]));
                }
                let head = digits.take(j);
                if j == 1 {
                    assert(head.drop_last() =~= Seq::empty());
                    assert(value_of_digits(head.drop_last()) == 0);
                    assert(is_digit(head[0]));
                }
            }
        }
    }
}

/// Why a text is no number is told in words.
pub proof fn law_number_errors_are_told()
    ensures
        NumberError::Empty.spec_message() == "cannot parse integer from empty string"@,
        NumberError::InvalidDigit.spec_message() == "invalid digit found in string"@,
        NumberError::TooLarge.spec_message() == "number too large to fit in target type"@,
{
}

} // verus!
