//! Texts and characters: what the standard library is trusted to do with them, and a few
//! operations on them that are proved here.

use vstd::prelude::*;
use vstd::std_specs::iter::IteratorSpec;
use vstd::string::StringExecFns;

verus! {

/// The Unicode `White_Space` property of a character, as `char::is_whitespace` reports it.
pub uninterp spec fn white_space_property(c: char) -> bool;

/// Whether `c` is whitespace: a character with the Unicode `White_Space` property, which the
/// space has.
pub open spec fn white_space(c: char) -> bool {
    c == ' ' || white_space_property(c)
}

/// `char::is_whitespace` tells whether a character has the Unicode `White_Space` property. Its
/// documentation shows that the space has it.
pub assume_specification[ char::is_whitespace ](c: char) -> (r: bool)
    ensures
        r == (c == ' ' || white_space_property(c)),
;

/// `String::push` appends one character to the end of the string.
pub assume_specification[ std::string::String::push ](s: &mut std::string::String, c: char)
    ensures
        final(s)@ == old(s)@.push(c),
;

/// The text without the whitespace that it begins with.
pub open spec fn without_leading_space(text: Seq<char>) -> Seq<char>
    decreases text.len(),
{
    if text.len() > 0 && white_space(text.first()) {
        without_leading_space(text.drop_first())
    } else {
        text
    }
}

/// The text without the whitespace that it ends with.
pub open spec fn without_trailing_space(text: Seq<char>) -> Seq<char>
    decreases text.len(),
{
    if text.len() > 0 && white_space(text.last()) {
        without_trailing_space(text.drop_last())
    } else {
        text
    }
}

/// The text without the whitespace at either end.
pub open spec fn trimmed(text: Seq<char>) -> Seq<char> {
    without_trailing_space(without_leading_space(text))
}

/// `str::trim` returns the text without the characters at its start and at its end that have
/// the Unicode `White_Space` property.
pub assume_specification[ str::trim ](s: &str) -> (r: &str)
    ensures
        r@ == trimmed(s@),
;

/// `str::eq` tells whether two texts hold the same characters.
pub assume_specification[ <str as PartialEq>::eq ](a: &str, b: &str) -> (r: bool)
    ensures
        r == (a@ == b@),
;

/// Whether `c` may occur in the name of an interpolated variable: an ASCII letter, an ASCII
/// digit or an underscore.
pub open spec fn is_name_char(c: char) -> bool {
    ('a' <= c && c <= 'z') || ('A' <= c && c <= 'Z') || ('0' <= c && c <= '9') || c == '_'
}

/// Tells whether `c` may occur in the name of an interpolated variable.
pub fn name_char(c: char) -> (r: bool)
    ensures
        r == is_name_char(c),
{
    ('a' <= c && c <= 'z') || ('A' <= c && c <= 'Z') || ('0' <= c && c <= '9') || c == '_'
}

/// The texts of a sequence of strings, in order.
pub open spec fn texts(strings: Seq<String>) -> Seq<Seq<char>> {
    strings.map_values(|s: String| s@)
}

/// The parts with the separator between each two neighbours.
pub open spec fn joined(parts: Seq<Seq<char>>, separator: Seq<char>) -> Seq<char>
    decreases parts.len(),
{
    if parts.len() == 0 {
        Seq::empty()
    } else if parts.len() == 1 {
        parts[0]
    } else {
        joined(parts.drop_last(), separator) + separator + parts.last()
    }
}

/// The parts of `text` between the places where `separator` stands: one more than it holds
/// separators.
pub open spec fn parts(text: Seq<char>, separator: char) -> Seq<Seq<char>>
    decreases text.len(),
{
    if text.len() == 0 {
        seq![Seq::empty()]
    } else if text.last() == separator {
        parts(text.drop_last(), separator).push(Seq::empty())
    } else {
        let front = parts(text.drop_last(), separator);
        front.drop_last().push(front.last().push(text.last()))
    }
}

/// A text has at least one part, and only the empty text has a single empty part.
pub proof fn lemma_parts_shape(text: Seq<char>, separator: char)
    ensures
        parts(text, separator).len() >= 1,
        (parts(text, separator).len() == 1 && parts(text, separator)[0].len() == 0) <==> text.len()
            == 0,
    decreases text.len(),
{
    if text.len() > 0 {
        lemma_parts_shape(text.drop_last(), separator);
    }
}

/// Joining the parts of a text with the separator gives the text back.
pub proof fn lemma_joined_parts(text: Seq<char>, separator: char)
    ensures
        joined(parts(text, separator), seq![separator]) == text,
    decreases text.len(),
{
    if text.len() > 0 {
        let front = text.drop_last();
        let before = parts(front, separator);
        lemma_joined_parts(front, separator);
        lemma_parts_shape(front, separator);
        assert(text =~= front.push(text.last()));
        if text.last() == separator {
            let all = before.push(Seq::empty());
            assert(all.drop_last() =~= before);
            assert(joined(all, seq![separator]) =~= joined(before, seq![separator]).push(
                separator,
            ));
        } else {
            let grown = before.last().push(text.last());
            let all = before.drop_last().push(grown);
            if before.len() > 1 {
                assert(all.drop_last() =~= before.drop_last());
            }
            assert(joined(all, seq![separator]) =~= joined(before, seq![separator]).push(
                text.last(),
            ));
        }
    }
}

/// Splits the text at each place where the separator stands.
pub fn split(text: &str, separator: char) -> (pieces: Vec<String>)
    ensures
        texts(pieces@) == parts(text@, separator),
{
    let mut pieces: Vec<String> = Vec::new();
    let mut piece = String::new();
    assert(texts(pieces@).push(piece@) =~= parts(text@.take(0), separator));
    for c in it: text.chars()
        invariant
            it.seq() == text@,
            texts(pieces@).push(piece@) == parts(text@.take(it.index() as int), separator),
    {
        proof {
            let read = text@.take(it.index() + 1);
            assert(read.drop_last() =~= text@.take(it.index() as int));
            assert(read.last() == c);
        }
        let ghost before = texts(pieces@);
        if c == separator {
            let mut full = String::new();
            std::mem::swap(&mut full, &mut piece);
            pieces.push(full);
            assert(texts(pieces@) =~= before.push(full@));
        } else {
            piece.push(c);
            assert(before.push(piece@) =~= parts(
                text@.take(it.index() as int),
                separator,
            ).drop_last().push(piece@));
        }
    }
    assert(text@.take(text@.len() as int) =~= text@);
    let ghost before = texts(pieces@);
    pieces.push(piece);
    assert(texts(pieces@) =~= before.push(piece@));
    pieces
}

/// Joins the parts, with the separator between each two neighbours.
pub fn join(parts: &[String], separator: &str) -> (text: String)
    ensures
        text@ == joined(texts(parts@), separator@),
{
    let mut text = String::new();
    assert(texts(parts@).take(0) =~= Seq::<Seq<char>>::empty());
    for i in 0..parts.len()
        invariant
            text@ == joined(texts(parts@).take(i as int), separator@),
    {
        if i > 0 {
            text.append(separator);
        }
        text.append(parts[i].as_str());
        proof {
            let read = texts(parts@).take(i + 1);
            assert(read.drop_last() =~= texts(parts@).take(i as int));
            assert(read.last() == parts[i as int]@);
            if i == 0 {
                assert(text@ =~= read[0]);
            }
        }
    }
    assert(texts(parts@).take(parts@.len() as int) =~= texts(parts@));
    text
}


/// Whether `a` comes before `b`, or is `b`, in the order of texts: the first character in
/// which they differ decides, and a text comes before those that it begins.
pub open spec fn text_le(a: Seq<char>, b: Seq<char>) -> bool
    decreases a.len(),
{
    if a.len() == 0 {
        true
    } else if b.len() == 0 {
        false
    } else if a.first() != b.first() {
        a.first() < b.first()
    } else {
        text_le(a.drop_first(), b.drop_first())
    }
}

/// Tells whether `a` comes before `b`, or is `b`, in the order of texts.
pub fn precedes(a: &str, b: &str) -> (r: bool)
    ensures
        r == text_le(a@, b@),
{
    let mut left = a.chars();
    let mut right = b.chars();
    loop
        invariant
            text_le(a@, b@) == text_le(left.remaining(), right.remaining()),
            left.decrease() is Some,
        decreases left.decrease()->0,
    {
        match left.next() {
            None => {
                return true;
            },
            Some(x) => match right.next() {
                None => {
                    return false;
                },
                Some(y) => {
                    if x != y {
                        return x < y;
                    }
                },
            },
        }
    }
}

/// Every text comes before itself or is itself.
pub proof fn lemma_text_le_reflexive(a: Seq<char>)
    ensures
        text_le(a, a),
    decreases a.len(),
{
    if a.len() > 0 {
        lemma_text_le_reflexive(a.drop_first());
    }
}

/// Of two texts one comes before the other.
pub proof fn lemma_text_le_total(a: Seq<char>, b: Seq<char>)
    ensures
        text_le(a, b) || text_le(b, a),
    decreases a.len(),
{
    if a.len() > 0 && b.len() > 0 && a.first() == b.first() {
        lemma_text_le_total(a.drop_first(), b.drop_first());
    }
}

/// Two texts of which each comes before the other are one text.
pub proof fn lemma_text_le_antisymmetric(a: Seq<char>, b: Seq<char>)
    requires
        text_le(a, b),
        text_le(b, a),
    ensures
        a == b,
    decreases a.len(),
{
    if a.len() > 0 {
        lemma_text_le_antisymmetric(a.drop_first(), b.drop_first());
        assert(a =~= seq![a.first()] + a.drop_first());
        assert(b =~= seq![b.first()] + b.drop_first());
    } else {
        assert(a =~= b);
    }
}

/// What comes before a text comes before all that the text comes before.
pub proof fn lemma_text_le_transitive(a: Seq<char>, b: Seq<char>, c: Seq<char>)
    requires
        text_le(a, b),
        text_le(b, c),
    ensures
        text_le(a, c),
    decreases a.len(),
{
    if a.len() > 0 && a.first() == b.first() && b.first() == c.first() {
        lemma_text_le_transitive(a.drop_first(), b.drop_first(), c.drop_first());
    }
}


/// The character that is written for a digit.
pub open spec fn digit_char(d: nat) -> char {
    if d == 0 {
        '0'
    } else if d == 1 {
        '1'
    } else if d == 2 {
        '2'
    } else if d == 3 {
        '3'
    } else if d == 4 {
        '4'
    } else if d == 5 {
        '5'
    } else if d == 6 {
        '6'
    } else if d == 7 {
        '7'
    } else if d == 8 {
        '8'
    } else {
        '9'
    }
}

/// A number as it is written to the base ten, without leading zeros.
pub open spec fn decimal_text(n: nat) -> Seq<char>
    decreases n,
{
    if n < 10 {
        seq![digit_char(n)]
    } else {
        decimal_text(n / 10).push(digit_char(n % 10))
    }
}

/// Writes a digit.
pub fn digit(d: usize) -> (c: char)
    requires
        d < 10,
    ensures
        c == digit_char(d as nat),
{
    if d == 0 {
        '0'
    } else if d == 1 {
        '1'
    } else if d == 2 {
        '2'
    } else if d == 3 {
        '3'
    } else if d == 4 {
        '4'
    } else if d == 5 {
        '5'
    } else if d == 6 {
        '6'
    } else if d == 7 {
        '7'
    } else if d == 8 {
        '8'
    } else {
        '9'
    }
}

/// Writes a number to the base ten.
pub fn decimal(n: usize) -> (text: String)
    ensures
        text@ == decimal_text(n as nat),
    decreases n,
{
    if n < 10 {
        let mut text = String::new();
        text.push(digit(n));
        assert(text@ =~= seq![digit_char(n as nat)]);
        text
    } else {
        let mut text = decimal(n / 10);
        text.push(digit(n % 10));
        text
    }
}

} // verus!
