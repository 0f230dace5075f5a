//! Text: the tokens of a line, the pieces between separators, folding
//! letters to lower case, and reading and writing a number.

use vstd::prelude::*;
use vstd::string::StrSliceExecFns;

verus! {

/// White space: the code points with the Unicode property `White_Space`.
pub open spec fn is_whitespace(c: char) -> bool {
    let u = c as u32;
    ||| 0x09 <= u <= 0x0D
    ||| u == 0x20
    ||| u == 0x85
    ||| u == 0xA0
    ||| u == 0x1680
    ||| 0x2000 <= u <= 0x200A
    ||| u == 0x2028
    ||| u == 0x2029
    ||| u == 0x202F
    ||| u == 0x205F
    ||| u == 0x3000
}

/// A text of white space only.
pub open spec fn blank(s: Seq<char>) -> bool {
    forall|i: int| 0 <= i < s.len() ==> is_whitespace(#[trigger] s[i])
}

/// A text without white space.
pub open spec fn solid(s: Seq<char>) -> bool {
    forall|i: int| 0 <= i < s.len() ==> !is_whitespace(#[trigger] s[i])
}

/// How many characters at the start of the text are no white space.
pub open spec fn word_len(s: Seq<char>) -> nat
    decreases s.len(),
{
    if s.len() == 0 || is_whitespace(s.first()) {
        0
    } else {
        1 + word_len(s.drop_first())
    }
}

/// The tokens of the text, in order: its longest runs of characters that
/// are no white space. A text of white space alone has none.
pub open spec fn words(s: Seq<char>) -> Seq<Seq<char>>
    decreases s.len(),
    via words_decreases
{
    if s.len() == 0 {
        Seq::empty()
    } else if is_whitespace(s.first()) {
        words(s.drop_first())
    } else {
        seq![s.subrange(0, word_len(s) as int)] + words(
            s.subrange(word_len(s) as int, s.len() as int),
        )
    }
}

#[via_fn]
proof fn words_decreases(s: Seq<char>) {
    lemma_word_len(s);
}

/// The run at the start of a text ends within the text, at its first
/// white space, and is not empty where the text starts with a character
/// that is no white space.
pub proof fn lemma_word_len(s: Seq<char>)
    ensures
        word_len(s) <= s.len(),
        s.len() > 0 && !is_whitespace(s.first()) ==> word_len(s) >= 1,
        forall|i: int| 0 <= i < word_len(s) ==> !is_whitespace(#[trigger] s[i]),
        word_len(s) < s.len() ==> is_whitespace(s[word_len(s) as int]),
    decreases s.len(),
{
    if s.len() > 0 && !is_whitespace(s.first()) {
        let rest = s.drop_first();
        lemma_word_len(rest);
        assert forall|i: int| 0 <= i < word_len(s) implies !is_whitespace(#[trigger] s[i]) by {
            if i > 0 {
                assert(s[i] == rest[i - 1]);
            }
        }
        if word_len(s) < s.len() {
            assert(s[word_len(s) as int] == rest[word_len(rest) as int]);
        }
    }
}

/// The pieces between the occurrences of `sep`, in order. A text without
/// `sep` is one piece; two occurrences side by side hold an empty piece.
pub open spec fn split(s: Seq<char>, sep: char) -> Seq<Seq<char>>
    decreases s.len(),
{
    match s.index_of_first(sep) {
        Some(i) if 0 <= i < s.len() => seq![s.subrange(0, i)] + split(
            s.subrange(i + 1, s.len() as int),
            sep,
        ),
        _ => seq![s],
    }
}

/// An upper-case letter of the Latin alphabet as its lower-case letter;
/// every other character as itself.
pub open spec fn lower(c: char) -> char {
    match c {
        'A' => 'a',
        'B' => 'b',
        'C' => 'c',
        'D' => 'd',
        'E' => 'e',
        'F' => 'f',
        'G' => 'g',
        'H' => 'h',
        'I' => 'i',
        'J' => 'j',
        'K' => 'k',
        'L' => 'l',
        'M' => 'm',
        'N' => 'n',
        'O' => 'o',
        'P' => 'p',
        'Q' => 'q',
        'R' => 'r',
        'S' => 's',
        'T' => 't',
        'U' => 'u',
        'V' => 'v',
        'W' => 'w',
        'X' => 'x',
        'Y' => 'y',
        'Z' => 'z',
        _ => c,
    }
}

/// The text with every letter folded to lower case.
pub open spec fn fold(s: Seq<char>) -> Seq<char> {
    Seq::new(s.len(), |i: int| lower(s[i]))
}

/// What a decimal digit counts for.
pub open spec fn digit(c: char) -> Option<nat> {
    match c {
        '0' => Some(0),
        '1' => Some(1),
        '2' => Some(2),
        '3' => Some(3),
        '4' => Some(4),
        '5' => Some(5),
        '6' => Some(6),
        '7' => Some(7),
        '8' => Some(8),
        '9' => Some(9),
        _ => None,
    }
}

/// Whether the text is made of decimal digits only.
pub open spec fn all_digits(s: Seq<char>) -> bool {
    forall|i: int| 0 <= i < s.len() ==> digit(#[trigger] s[i]) is Some
}

/// The number that a text of decimal digits writes.
pub open spec fn decimal(s: Seq<char>) -> nat
    decreases s.len(),
{
    if s.len() == 0 {
        0
    } else {
        decimal(s.drop_last()) * 10 + match digit(s.last()) {
            Some(d) => d,
            None => 0,
        }
    }
}

/// The text behind an optional `+` at its start.
pub open spec fn unsigned(s: Seq<char>) -> Seq<char> {
    if s.len() > 0 && s.first() == '+' {
        s.drop_first()
    } else {
        s
    }
}

/// The index that a text writes: an optional `+`, then one decimal digit
/// or more, and a value that a `usize` holds.
pub open spec fn index_of_text(s: Seq<char>) -> Option<usize> {
    let digits = unsigned(s);
    if digits.len() > 0 && all_digits(digits) && decimal(digits) <= usize::MAX {
        Some(decimal(digits) as usize)
    } else {
        None
    }
}

/// The run at the start of a text ends at the first white space.
pub proof fn lemma_word_ends(s: Seq<char>, end: int)
    requires
        0 <= end <= s.len(),
        forall|i: int| 0 <= i < end ==> !is_whitespace(s[i]),
        end == s.len() || is_whitespace(s[end]),
    ensures
        word_len(s) == end,
    decreases end,
{
    if end > 0 {
        let rest = s.drop_first();
        assert forall|i: int| 0 <= i < end - 1 implies !is_whitespace(rest[i]) by {
            assert(rest[i] == s[i + 1]);
        }
        lemma_word_ends(rest, end - 1);
    }
}

/// A text without the separator is one piece.
pub proof fn lemma_split_last(s: Seq<char>, sep: char)
    requires
        forall|i: int| 0 <= i < s.len() ==> s[i] != sep,
    ensures
        split(s, sep) == seq![s],
{
    s.index_of_first_ensures(sep);
}

/// The first piece ends at the first separator, and the rest is split in
/// the same way.
pub proof fn lemma_split_next(s: Seq<char>, sep: char, at: int)
    requires
        0 <= at < s.len(),
        s[at] == sep,
        forall|i: int| 0 <= i < at ==> s[i] != sep,
    ensures
        split(s, sep) == seq![s.subrange(0, at)] + split(s.subrange(at + 1, s.len() as int), sep),
{
    s.index_of_first_ensures(sep);
}

/// Whether the character is white space.
pub fn is_space(c: char) -> (space: bool)
    ensures
        space == is_whitespace(c),
{
    let u: u32 = c as u32;
    (0x09 <= u && u <= 0x0D) || u == 0x20 || u == 0x85 || u == 0xA0 || u == 0x1680 || (0x2000 <= u
        && u <= 0x200A) || u == 0x2028 || u == 0x2029 || u == 0x202F || u == 0x205F || u == 0x3000
}

/// The lower-case letter of an upper-case letter; any other character as
/// it is.
pub fn to_lower(c: char) -> (folded: char)
    ensures
        folded == lower(c),
{
    match c {
        'A' => 'a',
        'B' => 'b',
        'C' => 'c',
        'D' => 'd',
        'E' => 'e',
        'F' => 'f',
        'G' => 'g',
        'H' => 'h',
        'I' => 'i',
        'J' => 'j',
        'K' => 'k',
        'L' => 'l',
        'M' => 'm',
        'N' => 'n',
        'O' => 'o',
        'P' => 'p',
        'Q' => 'q',
        'R' => 'r',
        'S' => 's',
        'T' => 't',
        'U' => 'u',
        'V' => 'v',
        'W' => 'w',
        'X' => 'x',
        'Y' => 'y',
        'Z' => 'z',
        _ => c,
    }
}

/// What a decimal digit counts for.
pub fn digit_value(c: char) -> (value: Option<usize>)
    ensures
        match value {
            Some(d) => digit(c) == Some(d as nat) && d <= 9,
            None => digit(c) is None,
        },
{
    match c {
        '0' => Some(0),
        '1' => Some(1),
        '2' => Some(2),
        '3' => Some(3),
        '4' => Some(4),
        '5' => Some(5),
        '6' => Some(6),
        '7' => Some(7),
        '8' => Some(8),
        '9' => Some(9),
        _ => None,
    }
}

/// Whether `token` is `word`, whatever the case of its letters.
pub fn is_word(token: &str, word: &str) -> (same: bool)
    ensures
        same == (fold(token@) == word@),
{
    let len = token.unicode_len();
    if len != word.unicode_len() {
        return false;
    }
    let mut i: usize = 0;
    while i < len
        invariant
            i <= len,
            len == token@.len(),
            len == word@.len(),
            forall|k: int| 0 <= k < i ==> lower(token@[k]) == word@[k],
        decreases len - i,
    {
        if to_lower(token.get_char(i)) != word.get_char(i) {
            assert(fold(token@)[i as int] != word@[i as int]);
            return false;
        }
        i += 1;
    }
    assert(fold(token@) =~= word@);
    true
}

/// Whether the two texts are the same, character by character.
pub fn same_text(a: &str, b: &str) -> (same: bool)
    ensures
        same == (a@ == b@),
{
    let len = a.unicode_len();
    if len != b.unicode_len() {
        return false;
    }
    let mut i: usize = 0;
    while i < len
        invariant
            i <= len,
            len == a@.len(),
            len == b@.len(),
            forall|k: int| 0 <= k < i ==> a@[k] == b@[k],
        decreases len - i,
    {
        if a.get_char(i) != b.get_char(i) {
            return false;
        }
        i += 1;
    }
    assert(a@ =~= b@);
    true
}

/// The texts of the pieces, in order.
pub open spec fn texts(pieces: Seq<&str>) -> Seq<Seq<char>> {
    Seq::new(pieces.len(), |k: int| pieces[k]@)
}

/// The pieces of the text between the occurrences of `sep`.
pub fn pieces<'a>(text: &'a str, sep: char) -> (pieces: Vec<&'a str>)
    ensures
        pieces@.len() >= 1,
        texts(pieces@) == split(text@, sep),
{
    let len = text.unicode_len();
    let mut pieces: Vec<&'a str> = Vec::new();
    let mut from: usize = 0;
    let mut i: usize = 0;
    proof {
        assert(text@.subrange(0, len as int) =~= text@);
        assert(texts(pieces@) + split(text@, sep) =~= split(text@, sep));
    }
    while i < len
        invariant
            from <= i <= len,
            len == text@.len(),
            forall|k: int| from <= k < i ==> text@[k] != sep,
            split(text@, sep) == texts(pieces@) + split(text@.subrange(from as int, len as int), sep),
        decreases len - i,
    {
        if text.get_char(i) == sep {
            let piece = text.substring_char(from, i);
            proof {
                let rest = text@.subrange(from as int, len as int);
                lemma_split_next(rest, sep, i - from);
                assert(rest.subrange(0, i - from) =~= piece@);
                assert(rest.subrange(i - from + 1, rest.len() as int) =~= text@.subrange(
                    i + 1,
                    len as int,
                ));
                assert(texts(pieces@).push(piece@) =~= texts(pieces@.push(piece)));
                assert(texts(pieces@) + (seq![piece@] + split(
                    text@.subrange(i + 1, len as int),
                    sep,
                )) =~= texts(pieces@).push(piece@) + split(text@.subrange(i + 1, len as int), sep));
            }
            pieces.push(piece);
            from = i + 1;
        }
        i += 1;
    }
    let piece = text.substring_char(from, len);
    proof {
        lemma_split_last(piece@, sep);
        assert(texts(pieces@).push(piece@) =~= texts(pieces@.push(piece)));
        assert(texts(pieces@) + seq![piece@] =~= texts(pieces@).push(piece@));
    }
    pieces.push(piece);
    pieces
}

/// The tokens of the line: its longest runs of characters that are no
/// white space.
pub fn tokens<'a>(line: &'a str) -> (pieces: Vec<&'a str>)
    ensures
        texts(pieces@) == words(line@),
{
    let len = line.unicode_len();
    let mut pieces: Vec<&'a str> = Vec::new();
    let mut from: usize = 0;
    let mut i: usize = 0;
    proof {
        assert(line@.subrange(0, len as int) =~= line@);
        assert(texts(pieces@) + words(line@) =~= words(line@));
    }
    while i < len
        invariant
            from <= i <= len,
            len == line@.len(),
            forall|k: int| from <= k < i ==> !is_whitespace(line@[k]),
            words(line@) == texts(pieces@) + words(line@.subrange(from as int, len as int)),
        decreases len - i,
    {
        if is_space(line.get_char(i)) {
            let ghost rest = line@.subrange(from as int, len as int);
            let ghost tail = line@.subrange(i as int, len as int);
            proof {
                assert(tail.first() == line@[i as int]);
                assert(tail.drop_first() =~= line@.subrange(i + 1, len as int));
            }
            if from < i {
                let piece = line.substring_char(from, i);
                proof {
                    assert forall|k: int| 0 <= k < i - from implies !is_whitespace(rest[k]) by {
                        assert(rest[k] == line@[k + from]);
                    }
                    lemma_word_ends(rest, i - from);
                    assert(rest.subrange(0, i - from) =~= piece@);
                    assert(rest.subrange(i - from, rest.len() as int) =~= tail);
                    assert(texts(pieces@).push(piece@) =~= texts(pieces@.push(piece)));
                    assert(texts(pieces@) + (seq![piece@] + words(tail)) =~= texts(pieces@).push(
                        piece@,
                    ) + words(tail));
                }
                pieces.push(piece);
            } else {
                proof {
                    assert(rest =~= tail);
                }
            }
            from = i + 1;
        }
        i += 1;
    }
    if from < len {
        let piece = line.substring_char(from, len);
        proof {
            let rest = line@.subrange(from as int, len as int);
            assert(rest =~= piece@);
            law_words_one(rest);
            assert(texts(pieces@) + seq![piece@] =~= texts(pieces@.push(piece)));
        }
        pieces.push(piece);
    } else {
        proof {
            assert(line@.subrange(from as int, len as int) =~= Seq::<char>::empty());
            assert(texts(pieces@) + Seq::<Seq<char>>::empty() =~= texts(pieces@));
        }
    }
    pieces
}

/// Appending a digit to a text of digits does not make its number smaller.
pub proof fn lemma_decimal_grows(s: Seq<char>, upto: int)
    requires
        0 <= upto <= s.len(),
    ensures
        decimal(s.subrange(0, upto)) <= decimal(s),
    decreases s.len() - upto,
{
    if upto == s.len() {
        assert(s.subrange(0, upto) =~= s);
    } else {
        lemma_decimal_grows(s.drop_last(), upto);
        assert(s.drop_last().subrange(0, upto) =~= s.subrange(0, upto));
    }
}

/// Reads an index: an optional `+`, then decimal digits. A text with
/// anything else in it, without a digit, or with a value that `usize` does
/// not hold, gives `None`.
pub fn parse_index(text: &str) -> (index: Option<usize>)
    ensures
        index == index_of_text(text@),
{
    let len = text.unicode_len();
    let start: usize = if len > 0 && text.get_char(0) == '+' {
        1
    } else {
        0
    };
    if start == len {
        return None;
    }
    let ghost digits = text@.subrange(start as int, len as int);
    proof {
        if start == 1 {
            assert(digits =~= text@.drop_first());
        } else {
            assert(digits =~= text@);
        }
    }
    let mut value: usize = 0;
    let mut i: usize = start;
    while i < len
        invariant
            start <= i <= len,
            len == text@.len(),
            digits == text@.subrange(start as int, len as int),
            digits == unsigned(text@),
            all_digits(digits.subrange(0, i - start)),
            value == decimal(digits.subrange(0, i - start)),
        decreases len - i,
    {
        let ghost seen = digits.subrange(0, i - start);
        let ghost more = digits.subrange(0, i - start + 1);
        proof {
            assert(more.drop_last() =~= seen);
            assert(more.last() == text@[i as int]);
        }
        match digit_value(text.get_char(i)) {
            None => {
                proof {
                    assert(digits[i - start] == text@[i as int]);
                    assert(digit(digits[i - start]) is None);
                }
                return None;
            },
            Some(d) => {
                if value > (usize::MAX - d) / 10 {
                    proof {
                        assert(decimal(more) > usize::MAX);
                        lemma_decimal_grows(digits, i - start + 1);
                    }
                    return None;
                }
                value = value * 10 + d;
                proof {
                    assert forall|k: int| 0 <= k < more.len() implies digit(
                        #[trigger] more[k],
                    ) is Some by {
                        if k < seen.len() {
                            assert(more[k] == seen[k]);
                        }
                    }
                }
            },
        }
        i += 1;
    }
    proof {
        assert(digits.subrange(0, len - start) =~= digits);
    }
    Some(value)
}

/// The character that writes a digit.
pub open spec fn digit_char(d: nat) -> char {
    if d == 0 {
        '0'
    } else if d == 1 {
        '1'
    } else if d == 2 {
        '2'
    } else if d == 3 {
        '3'
    } else if d == 4 {
        '4'
    } else if d == 5 {
        '5'
    } else if d == 6 {
        '6'
    } else if d == 7 {
        '7'
    } else if d == 8 {
        '8'
    } else {
        '9'
    }
}

/// The decimal digits that write a number, without leading zeros.
pub open spec fn digits_of(n: nat) -> Seq<char>
    decreases n,
{
    if n < 10 {
        seq![digit_char(n)]
    } else {
        digits_of(n / 10).push(digit_char(n % 10))
    }
}

/// The text of one digit.
fn digit_text(d: usize) -> (text: &'static str)
    requires
        d < 10,
    ensures
        text@ == seq![digit_char(d as nat)],
{
    proof {
        reveal_strlit("0");
        reveal_strlit("1");
        reveal_strlit("2");
        reveal_strlit("3");
        reveal_strlit("4");
        reveal_strlit("5");
        reveal_strlit("6");
        reveal_strlit("7");
        reveal_strlit("8");
        reveal_strlit("9");
    }
    let text = if d == 0 {
        "0"
    } else if d == 1 {
        "1"
    } else if d == 2 {
        "2"
    } else if d == 3 {
        "3"
    } else if d == 4 {
        "4"
    } else if d == 5 {
        "5"
    } else if d == 6 {
        "6"
    } else if d == 7 {
        "7"
    } else if d == 8 {
        "8"
    } else {
        "9"
    };
    assert(text@ =~= seq![digit_char(d as nat)]);
    text
}

/// Writes an index in decimal digits.
pub fn index_text(n: usize) -> (text: String)
    ensures
        text@ == digits_of(n as nat),
    decreases n,
{
    if n < 10 {
        String::from_str(digit_text(n))
    } else {
        let text = index_text(n / 10).concat(digit_text(n % 10));
        proof {
            assert(text@ =~= digits_of((n / 10) as nat).push(digit_char((n % 10) as nat)));
        }
        text
    }
}

/// What was written as an index is read back as that index.
pub proof fn law_index_text_reads_back(n: usize)
    ensures
        index_of_text(digits_of(n as nat)) == Some(n),
{
    lemma_digits(n as nat);
}

/// The digits of a number are digits, at least one, and write that number.
pub proof fn lemma_digits(n: nat)
    ensures
        digits_of(n).len() > 0,
        all_digits(digits_of(n)),
        decimal(digits_of(n)) == n,
        digits_of(n).first() != '+',
    decreases n,
{
    let text = digits_of(n);
    if n < 10 {
        assert(text.drop_last() =~= Seq::<char>::empty());
        assert(decimal(text.drop_last()) == 0);
    } else {
        lemma_digits(n / 10);
        let front = digits_of(n / 10);
        assert(text.drop_last() =~= front);
        assert(text.last() == digit_char(n % 10));
        assert(digit(digit_char(n % 10)) == Some(n % 10));
        assert(text.first() == front.first());
        assert forall|i: int| 0 <= i < text.len() implies digit(#[trigger] text[i]) is Some by {
            if i < front.len() {
                assert(text[i] == front[i]);
            }
        }
    }
}

/// Every token holds a character, and none that is white space.
pub proof fn law_words_solid(s: Seq<char>, k: int)
    requires
        0 <= k < words(s).len(),
    ensures
        words(s)[k].len() > 0,
        solid(words(s)[k]),
    decreases s.len(),
{
    lemma_word_len(s);
    if s.len() == 0 {
    } else if is_whitespace(s.first()) {
        law_words_solid(s.drop_first(), k);
    } else if k > 0 {
        law_words_solid(s.subrange(word_len(s) as int, s.len() as int), k - 1);
    }
}

/// A text of white space alone has no token.
pub proof fn law_words_blank(s: Seq<char>)
    requires
        blank(s),
    ensures
        words(s) == Seq::<Seq<char>>::empty(),
    decreases s.len(),
{
    if s.len() > 0 {
        assert(is_whitespace(s[0]));
        assert forall|i: int| 0 <= i < s.drop_first().len() implies is_whitespace(
            #[trigger] s.drop_first()[i],
        ) by {
            assert(s.drop_first()[i] == s[i + 1]);
        }
        law_words_blank(s.drop_first());
    }
}

/// A text that holds a character, and none that is white space, is one
/// token.
pub proof fn law_words_one(s: Seq<char>)
    requires
        s.len() > 0,
        solid(s),
    ensures
        words(s) == seq![s],
{
    assert(!is_whitespace(s[0]));
    lemma_word_ends(s, s.len() as int);
    assert(s.subrange(0, s.len() as int) =~= s);
    assert(s.subrange(s.len() as int, s.len() as int) =~= Seq::<char>::empty());
    assert(words(Seq::<char>::empty()) =~= Seq::<Seq<char>>::empty());
    assert(seq![s] + Seq::<Seq<char>>::empty() =~= seq![s]);
}

/// A character of white space parts the tokens before it from those
/// behind it: no token runs across it, and none is lost.
pub proof fn law_words_parted(before: Seq<char>, space: char, behind: Seq<char>)
    requires
        is_whitespace(space),
    ensures
        words(before + seq![space] + behind) == words(before) + words(behind),
    decreases before.len(),
{
    let s = before + seq![space] + behind;
    if before.len() == 0 {
        assert(s.drop_first() =~= behind);
        assert(words(before) + words(behind) =~= words(behind));
    } else if is_whitespace(before.first()) {
        assert(s.drop_first() =~= before.drop_first() + seq![space] + behind);
        law_words_parted(before.drop_first(), space, behind);
    } else {
        lemma_word_len(before);
        let n = word_len(before) as int;
        assert forall|i: int| 0 <= i < n implies !is_whitespace(s[i]) by {
            assert(s[i] == before[i]);
        }
        if n < before.len() {
            assert(s[n] == before[n]);
        }
        lemma_word_ends(s, n);
        let rest = before.subrange(n, before.len() as int);
        assert(s.subrange(0, n) =~= before.subrange(0, n));
        assert(s.subrange(n, s.len() as int) =~= rest + seq![space] + behind);
        law_words_parted(rest, space, behind);
        assert(seq![before.subrange(0, n)] + (words(rest) + words(behind)) =~= (seq![
            before.subrange(0, n),
        ] + words(rest)) + words(behind));
    }
}

} // verus!
