//! Character-level building blocks: white space, trimming, splitting at a
//! separator, ASCII case folding and decimal numbers, each as a specification
//! over `Seq<char>` together with the executable code that computes it.

use vstd::prelude::*;

verus! {

/// Whether `c` is white space: one of the characters that carry the Unicode
/// property `White_Space`.
pub open spec fn is_whitespace(c: char) -> bool {
    ||| ('\u{9}' <= c && c <= '\u{d}')
    ||| c == ' '
    ||| c == '\u{85}'
    ||| c == '\u{a0}'
    ||| c == '\u{1680}'
    ||| ('\u{2000}' <= c && c <= '\u{200a}')
    ||| c == '\u{2028}'
    ||| c == '\u{2029}'
    ||| c == '\u{202f}'
    ||| c == '\u{205f}'
    ||| c == '\u{3000}'
}

/// `s` without the white space it starts with.
pub open spec fn trim_start(s: Seq<char>) -> Seq<char>
    decreases s.len(),
{
    if s.len() > 0 && is_whitespace(s[0]) {
        trim_start(s.drop_first())
    } else {
        s
    }
}

/// `s` without the white space it ends with.
pub open spec fn trim_end(s: Seq<char>) -> Seq<char>
    decreases s.len(),
{
    if s.len() > 0 && is_whitespace(s.last()) {
        trim_end(s.drop_last())
    } else {
        s
    }
}

/// `s` without the white space around it.
pub open spec fn trim(s: Seq<char>) -> Seq<char> {
    trim_end(trim_start(s))
}

/// The pieces of `s` between the occurrences of `sep`, in order. There is
/// always one piece more than there are separators, so the empty sequence
/// has one (empty) piece.
pub open spec fn split(s: Seq<char>, sep: char) -> Seq<Seq<char>>
    decreases s.len(),
{
    if s.len() == 0 {
        seq![Seq::<char>::empty()]
    } else {
        let before = split(s.drop_last(), sep);
        if s.last() == sep {
            before.push(Seq::<char>::empty())
        } else {
            before.drop_last().push(before.last().push(s.last()))
        }
    }
}

/// The texts `pieces` put together, with `sep` between one and the next.
pub open spec fn join(pieces: Seq<Seq<char>>, sep: char) -> Seq<char>
    decreases pieces.len(),
{
    if pieces.len() == 0 {
        Seq::empty()
    } else if pieces.len() == 1 {
        pieces[0]
    } else {
        join(pieces.drop_last(), sep) + seq![sep] + pieces.last()
    }
}

/// Whether none of `pieces` holds the character `c`.
pub open spec fn pieces_without(pieces: Seq<Seq<char>>, c: char) -> bool {
    forall|i: int, j: int|
        0 <= i < pieces.len() && 0 <= j < pieces[i].len() ==> #[trigger] pieces[i][j] != c
}

/// The lower-case form of an ASCII capital letter; any other character
/// unchanged.
pub open spec fn ascii_lower(c: char) -> char {
    if 'A' <= c && c <= 'Z' {
        ((c as int) + 32) as char
    } else {
        c
    }
}

/// `s` with every ASCII capital letter replaced by its lower-case form.
pub open spec fn ascii_lowercase(s: Seq<char>) -> Seq<char> {
    Seq::new(s.len(), |i: int| ascii_lower(s[i]))
}

/// Whether `c` is one of the ten decimal digits.
pub open spec fn is_digit(c: char) -> bool {
    '0' <= c && c <= '9'
}

/// Whether `s` consists of decimal digits only.
pub open spec fn all_digits(s: Seq<char>) -> bool {
    forall|i: int| 0 <= i < s.len() ==> is_digit(#[trigger] s[i])
}

/// What the digit `c` counts for.
pub open spec fn digit_value(c: char) -> nat {
    ((c as int) - ('0' as int)) as nat
}

/// The digit that stands for `d`, where `d < 10`.
pub open spec fn digit_char(d: nat) -> char {
    (d + ('0' as int)) as char
}

/// The number that the digits `s` denote in base ten (0 for no digits).
pub open spec fn decimal_value(s: Seq<char>) -> nat
    decreases s.len(),
{
    if s.len() == 0 {
        0
    } else {
        decimal_value(s.drop_last()) * 10 + digit_value(s.last())
    }
}

/// `n` written in base ten, without leading zeros.
pub open spec fn decimal_digits(n: nat) -> Seq<char>
    decreases n,
{
    if n < 10 {
        seq![digit_char(n)]
    } else {
        decimal_digits(n / 10).push(digit_char(n % 10))
    }
}

/// `n` written in base ten, with a minus sign in front if it is negative.
pub open spec fn signed_decimal_digits(n: int) -> Seq<char> {
    if n < 0 {
        seq!['-'] + decimal_digits((-n) as nat)
    } else {
        decimal_digits(n as nat)
    }
}

/// Whether `s` is a number in base ten that is no greater than `max`: one
/// digit or more, and nothing else.
pub open spec fn is_number(s: Seq<char>, max: nat) -> bool {
    s.len() > 0 && all_digits(s) && decimal_value(s) <= max
}

/// The position of the first `c` in `s`, or the length of `s` if it holds
/// none.
pub open spec fn index_of(s: Seq<char>, c: char) -> int
    decreases s.len(),
{
    if s.len() == 0 || s[0] == c {
        0
    } else {
        1 + index_of(s.drop_first(), c)
    }
}

/// The views of the strings in `strings`.
pub open spec fn string_views(strings: Seq<String>) -> Seq<Seq<char>> {
    Seq::new(strings.len(), |i: int| strings[i]@)
}

/// What `trim_start` leaves is the end of the text; what it cuts is white
/// space, and what it leaves does not start with white space.
pub proof fn lemma_trim_start_shape(s: Seq<char>)
    ensures
        trim_start(s).len() <= s.len(),
        trim_start(s) == s.skip(s.len() - trim_start(s).len()),
        forall|i: int| 0 <= i < s.len() - trim_start(s).len() ==> is_whitespace(s[i]),
        trim_start(s).len() > 0 ==> !is_whitespace(trim_start(s)[0]),
    decreases s.len(),
{
    if s.len() > 0 && is_whitespace(s[0]) {
        let rest = s.drop_first();
        lemma_trim_start_shape(rest);
        let cut = rest.len() - trim_start(rest).len();
        assert(rest.skip(cut) =~= s.skip(cut + 1));
        assert forall|i: int| 0 <= i < s.len() - trim_start(s).len() implies is_whitespace(
            s[i],
        ) by {
            if i > 0 {
                assert(s[i] == rest[i - 1]);
            }
        }
    } else {
        assert(s.skip(0) =~= s);
    }
}

/// What `trim_end` leaves is the start of the text; what it cuts is white
/// space, and what it leaves does not end with white space.
pub proof fn lemma_trim_end_shape(s: Seq<char>)
    ensures
        trim_end(s).len() <= s.len(),
        trim_end(s) == s.take(trim_end(s).len() as int),
        forall|i: int| trim_end(s).len() <= i < s.len() ==> is_whitespace(s[i]),
        trim_end(s).len() > 0 ==> !is_whitespace(trim_end(s).last()),
    decreases s.len(),
{
    if s.len() > 0 && is_whitespace(s.last()) {
        let rest = s.drop_last();
        lemma_trim_end_shape(rest);
        assert(rest.take(trim_end(rest).len() as int) =~= s.take(trim_end(rest).len() as int));
        assert forall|i: int| trim_end(s).len() <= i < s.len() implies is_whitespace(s[i]) by {
            if i < s.len() - 1 {
                assert(s[i] == rest[i]);
            }
        }
    } else {
        assert(s.take(s.len() as int) =~= s);
    }
}

/// What `trim` leaves is a stretch of the text with white space only before
/// it and after it, which neither starts nor ends with white space.
/// Trimming it again changes nothing.
pub proof fn lemma_trim_shape(s: Seq<char>)
    ensures
        trim_start(s).len() <= s.len(),
        trim(s).len() <= trim_start(s).len(),
        trim(s) == s.subrange(
            s.len() - trim_start(s).len(),
            s.len() - trim_start(s).len() + trim(s).len(),
        ),
        forall|i: int| 0 <= i < s.len() - trim_start(s).len() ==> is_whitespace(s[i]),
        forall|i: int|
            s.len() - trim_start(s).len() + trim(s).len() <= i < s.len() ==> is_whitespace(s[i]),
        trim(s).len() > 0 ==> !is_whitespace(trim(s)[0]) && !is_whitespace(trim(s).last()),
        trim(trim(s)) == trim(s),
{
    lemma_trim_start_shape(s);
    let front = trim_start(s);
    lemma_trim_end_shape(front);
    let cut = s.len() - front.len();
    assert(trim(s) =~= s.subrange(cut, cut + trim(s).len()));
    assert forall|i: int| cut + trim(s).len() <= i < s.len() implies is_whitespace(s[i]) by {
        assert(s[i] == front[i - cut]);
    }
    if trim(s).len() > 0 {
        assert(trim(s)[0] == front[0]);
    }
}

/// No piece of a split holds the separator, and the pieces joined by the
/// separator are the text again.
pub proof fn lemma_split_pieces(s: Seq<char>, sep: char)
    ensures
        split(s, sep).len() >= 1,
        pieces_without(split(s, sep), sep),
        join(split(s, sep), sep) == s,
    decreases s.len(),
{
    let pieces = split(s, sep);
    if s.len() == 0 {
        assert(join(pieces, sep) =~= s);
    } else {
        let before = split(s.drop_last(), sep);
        lemma_split_pieces(s.drop_last(), sep);
        assert(s.drop_last().push(s.last()) =~= s);
        if s.last() == sep {
            assert(pieces.drop_last() =~= before);
            assert(join(pieces, sep) =~= s);
            assert forall|i: int, j: int|
                0 <= i < pieces.len() && 0 <= j < pieces[i].len() implies #[trigger] pieces[i][j]
                != sep by {
                assert(pieces[i] == before[i]);
            }
        } else {
            let grown = before.last().push(s.last());
            if before.len() == 1 {
                assert(join(pieces, sep) =~= s);
            } else {
                assert(pieces.drop_last() =~= before.drop_last());
                assert(join(pieces, sep) =~= (join(before.drop_last(), sep) + seq![sep]
                    + before.last()).push(s.last()));
            }
            assert forall|i: int, j: int|
                0 <= i < pieces.len() && 0 <= j < pieces[i].len() implies #[trigger] pieces[i][j]
                != sep by {
                if i < pieces.len() - 1 {
                    assert(pieces[i] == before[i]);
                } else if j < grown.len() - 1 {
                    assert(pieces[i][j] == before[before.len() - 1][j]);
                }
            }
        }
    }
}

/// Splitting what was joined gives the pieces again, provided that there is
/// a piece and no piece holds the separator.
pub proof fn lemma_split_of_join(pieces: Seq<Seq<char>>, sep: char)
    requires
        pieces.len() >= 1,
        pieces_without(pieces, sep),
    ensures
        split(join(pieces, sep), sep) == pieces,
    decreases pieces.len(),
{
    if pieces.len() == 1 {
        assert forall|j: int| 0 <= j < pieces[0].len() implies pieces[0][j] != sep by {}
        lemma_split_whole(pieces[0], sep);
        assert(seq![pieces[0]] =~= pieces);
    } else {
        let before = pieces.drop_last();
        assert forall|i: int, j: int|
            0 <= i < before.len() && 0 <= j < before[i].len() implies #[trigger] before[i][j]
            != sep by {
            assert(before[i][j] == pieces[i][j]);
        }
        lemma_split_of_join(before, sep);
        assert forall|j: int| 0 <= j < pieces.last().len() implies pieces.last()[j] != sep by {
            assert(pieces[pieces.len() - 1][j] != sep);
        }
        lemma_split_whole(pieces.last(), sep);
        lemma_split_joined(join(before, sep), pieces.last(), sep);
        assert(before + seq![pieces.last()] =~= pieces);
    }
}

/// A text without separator is one piece.
pub proof fn lemma_split_whole(s: Seq<char>, sep: char)
    requires
        forall|i: int| 0 <= i < s.len() ==> s[i] != sep,
    ensures
        split(s, sep) == seq![s],
    decreases s.len(),
{
    if s.len() == 0 {
        assert(s =~= Seq::<char>::empty());
    } else {
        let shorter = s.drop_last();
        assert forall|i: int| 0 <= i < shorter.len() implies shorter[i] != sep by {
            assert(shorter[i] == s[i]);
        }
        lemma_split_whole(shorter, sep);
        assert(s[s.len() - 1] != sep);
        assert(seq![shorter].drop_last() =~= Seq::<Seq<char>>::empty());
        assert(shorter.push(s.last()) =~= s);
        assert(split(s, sep) =~= seq![s]);
    }
}

/// The pieces of two texts joined by a separator are the pieces of the
/// first followed by the pieces of the second.
pub proof fn lemma_split_joined(a: Seq<char>, b: Seq<char>, sep: char)
    ensures
        split(a + seq![sep] + b, sep) == split(a, sep) + split(b, sep),
    decreases b.len(),
{
    let joined = a + seq![sep] + b;
    if b.len() == 0 {
        assert(joined.drop_last() =~= a);
        assert(split(joined, sep) =~= split(a, sep) + split(b, sep));
    } else {
        lemma_split_joined(a, b.drop_last(), sep);
        lemma_split_pieces(b.drop_last(), sep);
        assert(joined.drop_last() =~= a + seq![sep] + b.drop_last());
        assert(joined.last() == b.last());
        assert(split(joined, sep) =~= split(a, sep) + split(b, sep));
    }
}

/// Reading back what `decimal_digits` wrote gives the number again, and what
/// it wrote are digits.
pub proof fn lemma_decimal_round_trip(n: nat)
    ensures
        all_digits(decimal_digits(n)),
        decimal_digits(n).len() >= 1,
        decimal_value(decimal_digits(n)) == n,
    decreases n,
{
    if n < 10 {
        let s = decimal_digits(n);
        assert(s.drop_last() =~= Seq::<char>::empty());
        assert(decimal_value(s.drop_last()) == 0);
    } else {
        lemma_decimal_round_trip(n / 10);
        let s = decimal_digits(n);
        assert(s.drop_last() =~= decimal_digits(n / 10));
    }
}

/// `index_of` is the position before which there is no `c` and at which
/// there is one, or the text ends.
pub proof fn lemma_index_of(s: Seq<char>, c: char, at: int)
    requires
        0 <= at <= s.len(),
        forall|i: int| 0 <= i < at ==> s[i] != c,
        at == s.len() || s[at] == c,
    ensures
        index_of(s, c) == at,
    decreases s.len(),
{
    if at > 0 {
        lemma_index_of(s.drop_first(), c, at - 1);
    }
}

/// The digits that a number starts with denote no more than the number.
pub proof fn lemma_decimal_value_prefix(s: Seq<char>, k: int)
    requires
        0 <= k <= s.len(),
    ensures
        decimal_value(s.take(k)) <= decimal_value(s),
    decreases s.len(),
{
    if k == s.len() {
        assert(s.take(k) =~= s);
    } else {
        assert(s.drop_last().take(k) =~= s.take(k));
        lemma_decimal_value_prefix(s.drop_last(), k);
    }
}

/// Whether `c` is white space.
pub fn char_is_whitespace(c: char) -> (b: bool)
    ensures
        b == is_whitespace(c),
{
    ('\u{9}' <= c && c <= '\u{d}') || c == ' ' || c == '\u{85}' || c == '\u{a0}' || c == '\u{1680}'
        || ('\u{2000}' <= c && c <= '\u{200a}') || c == '\u{2028}' || c == '\u{2029}' || c
        == '\u{202f}' || c == '\u{205f}' || c == '\u{3000}'
}

/// The characters of `s`, in order.
pub fn to_chars(s: &str) -> (chars: Vec<char>)
    ensures
        chars@ == s@,
{
    let mut chars: Vec<char> = Vec::new();
    for c in it: s.chars()
        invariant
            chars@ == s@.take(it.index() as int),
            it.seq() == s@,
    {
        chars.push(c);
    }
    chars
}

/// Appends `c` to `s`, by `String::push`, which adds the character at the
/// end and leaves what was there as it was.
#[verifier::external_body]
pub(crate) fn push_char(s: &mut String, c: char)
    ensures
        final(s)@ == old(s)@.push(c),
{
    s.push(c)
}

/// Appends the characters `chars[from..to]` to `s`.
pub fn append_chars(s: &mut String, chars: &Vec<char>, from: usize, to: usize)
    requires
        from <= to <= chars.len(),
    ensures
        final(s)@ == old(s)@ + chars@.subrange(from as int, to as int),
{
    let mut i: usize = from;
    while i < to
        invariant
            from <= i <= to <= chars.len(),
            s@ == old(s)@ + chars@.subrange(from as int, i as int),
        decreases to - i,
    {
        push_char(s, chars[i]);
        i += 1;
    }
}

/// A string made of the characters `chars[from..to]`.
pub fn string_from_chars(chars: &Vec<char>, from: usize, to: usize) -> (s: String)
    requires
        from <= to <= chars.len(),
    ensures
        s@ == chars@.subrange(from as int, to as int),
{
    let mut s = String::new();
    append_chars(&mut s, chars, from, to);
    s
}

/// The first position in `from..to` that holds no white space, or `to` if
/// there is none: what lies between it and `to` is `chars[from..to]` without
/// its leading white space.
pub fn skip_whitespace(chars: &Vec<char>, from: usize, to: usize) -> (at: usize)
    requires
        from <= to <= chars.len(),
    ensures
        from <= at <= to,
        chars@.subrange(at as int, to as int) == trim_start(chars@.subrange(from as int, to as int)),
{
    let mut i: usize = from;
    while i < to && char_is_whitespace(chars[i])
        invariant
            from <= i <= to <= chars.len(),
            trim_start(chars@.subrange(from as int, to as int)) == trim_start(
                chars@.subrange(i as int, to as int),
            ),
        decreases to - i,
    {
        assert(chars@.subrange(i as int, to as int).drop_first() =~= chars@.subrange(
            i as int + 1,
            to as int,
        ));
        i += 1;
    }
    i
}

/// The end of `chars[from..to]` once its trailing white space is dropped.
pub fn skip_trailing_whitespace(chars: &Vec<char>, from: usize, to: usize) -> (at: usize)
    requires
        from <= to <= chars.len(),
    ensures
        from <= at <= to,
        chars@.subrange(from as int, at as int) == trim_end(chars@.subrange(from as int, to as int)),
{
    let mut i: usize = to;
    while i > from && char_is_whitespace(chars[i - 1])
        invariant
            from <= i <= to <= chars.len(),
            trim_end(chars@.subrange(from as int, to as int)) == trim_end(
                chars@.subrange(from as int, i as int),
            ),
        decreases i,
    {
        assert(chars@.subrange(from as int, i as int).drop_last() =~= chars@.subrange(
            from as int,
            i as int - 1,
        ));
        i -= 1;
    }
    i
}

/// The lower-case form of `c` if it is an ASCII capital letter, else `c`.
pub fn to_ascii_lower(c: char) -> (lower: char)
    ensures
        lower == ascii_lower(c),
{
    if 'A' <= c && c <= 'Z' {
        ((c as u8) + 32) as char
    } else {
        c
    }
}

/// Whether `chars` and `word` are the same once the ASCII capital letters
/// of `chars` are made lower case.
pub fn lowercase_is(chars: &Vec<char>, word: &str) -> (b: bool)
    ensures
        b == (ascii_lowercase(chars@) == word@),
{
    let expected = to_chars(word);
    if chars.len() != expected.len() {
        return false;
    }
    let mut i: usize = 0;
    while i < chars.len()
        invariant
            i <= chars.len(),
            chars.len() == expected.len(),
            expected@ == word@,
            forall|j: int| 0 <= j < i ==> ascii_lower(chars@[j]) == expected@[j],
        decreases chars.len() - i,
    {
        if to_ascii_lower(chars[i]) != expected[i] {
            assert(ascii_lowercase(chars@)[i as int] != word@[i as int]);
            return false;
        }
        i += 1;
    }
    assert(ascii_lowercase(chars@) =~= word@);
    true
}

/// The pieces of `chars[from..to]` between the occurrences of `sep`.
pub fn split_range(chars: &Vec<char>, from: usize, to: usize, sep: char) -> (pieces: Vec<String>)
    requires
        from <= to <= chars.len(),
    ensures
        string_views(pieces@) == split(chars@.subrange(from as int, to as int), sep),
        pieces@.len() >= 1,
{
    let ghost text = chars@.subrange(from as int, to as int);
    let mut pieces: Vec<String> = Vec::new();
    let mut current = String::new();
    let mut i: usize = from;
    assert(text.take(0) =~= Seq::<char>::empty());
    assert(string_views(pieces@).push(current@) =~= split(text.take(0), sep));
    while i < to
        invariant
            from <= i <= to <= chars.len(),
            text == chars@.subrange(from as int, to as int),
            string_views(pieces@).push(current@) == split(text.take(i - from), sep),
        decreases to - i,
    {
        let ghost before = split(text.take(i - from), sep);
        assert(text.take(i - from + 1).drop_last() =~= text.take(i - from));
        assert(text.take(i - from + 1).last() == chars@[i as int]);
        if chars[i] == sep {
            pieces.push(current);
            current = String::new();
            assert(string_views(pieces@).push(current@) =~= before.push(Seq::<char>::empty()));
        } else {
            push_char(&mut current, chars[i]);
            assert(string_views(pieces@).push(current@) =~= before.drop_last().push(
                before.last().push(chars@[i as int]),
            ));
        }
        i += 1;
    }
    assert(text.take(i - from) =~= text);
    let ghost done = string_views(pieces@);
    pieces.push(current);
    assert(string_views(pieces@) =~= done.push(current@));
    pieces
}

/// The pieces of `s` between the occurrences of `sep`.
pub fn split_str(s: &str, sep: char) -> (pieces: Vec<String>)
    ensures
        string_views(pieces@) == split(s@, sep),
        pieces@.len() >= 1,
{
    let chars = to_chars(s);
    assert(chars@.subrange(0, chars.len() as int) =~= chars@);
    split_range(&chars, 0, chars.len(), sep)
}

/// Whether `s` is the text `word`.
pub fn text_is(s: &str, word: &str) -> (b: bool)
    ensures
        b == (s@ == word@),
{
    let chars = to_chars(s);
    let expected = to_chars(word);
    if chars.len() != expected.len() {
        return false;
    }
    let mut i: usize = 0;
    while i < chars.len()
        invariant
            i <= chars.len(),
            chars.len() == expected.len(),
            chars@ == s@,
            expected@ == word@,
            forall|j: int| 0 <= j < i ==> chars@[j] == expected@[j],
        decreases chars.len() - i,
    {
        if chars[i] != expected[i] {
            assert(s@[i as int] != word@[i as int]);
            return false;
        }
        i += 1;
    }
    assert(s@ =~= word@);
    true
}

/// The first position in `from..to` that holds `c`, or `to` if none does.
pub fn find_char(chars: &Vec<char>, from: usize, to: usize, c: char) -> (at: usize)
    requires
        from <= to <= chars.len(),
    ensures
        from <= at <= to,
        at - from == index_of(chars@.subrange(from as int, to as int), c),
{
    let mut i: usize = from;
    while i < to && chars[i] != c
        invariant
            from <= i <= to <= chars.len(),
            forall|j: int| from <= j < i ==> chars@[j] != c,
        decreases to - i,
    {
        i += 1;
    }
    proof {
        lemma_index_of(chars@.subrange(from as int, to as int), c, i - from);
    }
    i
}

/// The number that `s` denotes in base ten, if `s` is a number no greater
/// than `max`.
pub fn parse_number(s: &str, max: u32) -> (n: Option<u32>)
    ensures
        n is Some <==> is_number(s@, max as nat),
        n matches Some(value) ==> value == decimal_value(s@),
{
    let chars = to_chars(s);
    if chars.len() == 0 {
        return None;
    }
    let mut value: u64 = 0;
    let mut i: usize = 0;
    assert(chars@.take(0) =~= Seq::<char>::empty());
    while i < chars.len()
        invariant
            i <= chars.len(),
            chars@ == s@,
            value == decimal_value(chars@.take(i as int)),
            value <= max,
            all_digits(chars@.take(i as int)),
        decreases chars.len() - i,
    {
        let c = chars[i];
        if !('0' <= c && c <= '9') {
            assert(!is_digit(s@[i as int]));
            return None;
        }
        assert(chars@.take(i as int + 1).drop_last() =~= chars@.take(i as int));
        assert(chars@.take(i as int + 1).last() == c);
        value = value * 10 + ((c as u32) - ('0' as u32)) as u64;
        if value > max as u64 {
            proof {
                lemma_decimal_value_prefix(chars@, i as int + 1);
            }
            return None;
        }
        assert forall|j: int| 0 <= j < i + 1 implies is_digit(
            #[trigger] chars@.take(i as int + 1)[j],
        ) by {
            if j < i {
                assert(chars@.take(i as int)[j] == chars@[j]);
            }
        }
        i += 1;
    }
    assert(chars@.take(i as int) =~= chars@);
    Some(value as u32)
}

/// The digit that stands for `d`.
pub fn digit_of(d: u32) -> (c: char)
    requires
        d < 10,
    ensures
        c == digit_char(d as nat),
{
    (('0' as u8) + (d as u8)) as char
}

/// Appends `n`, written in base ten, to `s`.
pub fn push_decimal(s: &mut String, n: u32)
    ensures
        final(s)@ == old(s)@ + decimal_digits(n as nat),
    decreases n,
{
    if n >= 10 {
        push_decimal(s, n / 10);
    }
    push_char(s, digit_of(n % 10));
    assert(s@ =~= old(s)@ + decimal_digits(n as nat));
}

/// Appends `n`, written in base ten with its sign, to `s`.
pub fn push_signed_decimal(s: &mut String, n: i32)
    ensures
        final(s)@ == old(s)@ + signed_decimal_digits(n as int),
{
    if n < 0 {
        push_char(s, '-');
        push_decimal(s, (-(n as i64)) as u32);
        assert(s@ =~= old(s)@ + signed_decimal_digits(n as int));
    } else {
        push_decimal(s, n as u32);
    }
}

/// Appends the text `word` to `s`.
pub fn push_text(s: &mut String, word: &str)
    ensures
        final(s)@ == old(s)@ + word@,
{
    s.append(word);
}

} // verus!
