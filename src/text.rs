//! Character classes and text forms used as sort keys.
use std::cmp::Ordering;
use vstd::prelude::*;

verus! {

/// The Unicode `White_Space` property.
pub open spec fn is_whitespace_spec(c: char) -> bool {
    ('\u{9}' <= c && c <= '\u{d}') || c == ' ' || c == '\u{85}' || c == '\u{a0}' || c == '\u{1680}'
        || ('\u{2000}' <= c && c <= '\u{200a}') || c == '\u{2028}' || c == '\u{2029}'
        || c == '\u{202f}' || c == '\u{205f}' || c == '\u{3000}'
}

/// The Unicode general category `Cc` (control characters).
pub open spec fn is_control_spec(c: char) -> bool {
    c <= '\u{1f}' || ('\u{7f}' <= c && c <= '\u{9f}')
}

/// Characters that carry no weight in natural order: whitespace, control
/// characters, the zero-width space, non-joiner and joiner, and the
/// zero-width no-break space (byte-order mark).
pub open spec fn is_skipped_spec(c: char) -> bool {
    is_whitespace_spec(c) || is_control_spec(c) || ('\u{200b}' <= c && c <= '\u{200d}')
        || c == '\u{feff}'
}

pub fn is_skipped(c: char) -> (r: bool)
    ensures
        r == is_skipped_spec(c),
{
    let white = ('\u{9}' <= c && c <= '\u{d}') || c == ' ' || c == '\u{85}' || c == '\u{a0}'
        || c == '\u{1680}' || ('\u{2000}' <= c && c <= '\u{200a}') || c == '\u{2028}'
        || c == '\u{2029}' || c == '\u{202f}' || c == '\u{205f}' || c == '\u{3000}';
    let control = c <= '\u{1f}' || ('\u{7f}' <= c && c <= '\u{9f}');
    white || control || ('\u{200b}' <= c && c <= '\u{200d}') || c == '\u{feff}'
}

/// The value of an ASCII decimal digit, as `char::to_digit(10)` gives it.
pub open spec fn digit_value_spec(c: char) -> Option<isize> {
    if '0' <= c && c <= '9' {
        Some((c as u32 - '0' as u32) as isize)
    } else {
        None
    }
}

pub fn digit_value(c: char) -> (r: Option<isize>)
    ensures
        r == digit_value_spec(c),
{
    if '0' <= c && c <= '9' {
        Some((c as u32 - '0' as u32) as isize)
    } else {
        None
    }
}

/// Code point order of two characters.
pub open spec fn char_order(a: char, b: char) -> Ordering {
    if (a as int) < (b as int) {
        Ordering::Less
    } else if a == b {
        Ordering::Equal
    } else {
        Ordering::Greater
    }
}

pub fn compare_chars(a: char, b: char) -> (r: Ordering)
    ensures
        r == char_order(a, b),
{
    if a < b {
        Ordering::Less
    } else if a == b {
        Ordering::Equal
    } else {
        Ordering::Greater
    }
}

/// Reversal of an ordering.
pub open spec fn flip(o: Ordering) -> Ordering {
    match o {
        Ordering::Less => Ordering::Greater,
        Ordering::Equal => Ordering::Equal,
        Ordering::Greater => Ordering::Less,
    }
}

pub fn flipped(o: Ordering) -> (r: Ordering)
    ensures
        r == flip(o),
{
    match o {
        Ordering::Less => Ordering::Greater,
        Ordering::Equal => Ordering::Equal,
        Ordering::Greater => Ordering::Less,
    }
}

/// Lexicographic code point order of two texts; a proper prefix comes first.
pub open spec fn lex_order(a: Seq<char>, b: Seq<char>) -> Ordering
    decreases a.len(),
{
    if a.len() == 0 {
        if b.len() == 0 {
            Ordering::Equal
        } else {
            Ordering::Less
        }
    } else if b.len() == 0 {
        Ordering::Greater
    } else if a[0] != b[0] {
        char_order(a[0], b[0])
    } else {
        lex_order(a.drop_first(), b.drop_first())
    }
}

/// Swapping the texts reverses their order.
pub proof fn lemma_lex_order_flip(a: Seq<char>, b: Seq<char>)
    ensures
        lex_order(b, a) == flip(lex_order(a, b)),
    decreases a.len(),
{
    if a.len() > 0 && b.len() > 0 {
        if a[0] == b[0] {
            lemma_lex_order_flip(a.drop_first(), b.drop_first());
        } else {
            assert((a[0] as int) != (b[0] as int));
        }
    }
}

pub fn lex_compare(a: &Vec<char>, b: &Vec<char>) -> (r: Ordering)
    ensures
        r == lex_order(a@, b@),
{
    let mut i: usize = 0;
    assert(a@.skip(0) =~= a@);
    assert(b@.skip(0) =~= b@);
    while i < a.len() && i < b.len() && a[i] == b[i]
        invariant
            i <= a.len(),
            i <= b.len(),
            lex_order(a@, b@) == lex_order(a@.skip(i as int), b@.skip(i as int)),
        decreases a.len() - i,
    {
        assert(a@.skip(i as int).drop_first() =~= a@.skip(i + 1));
        assert(b@.skip(i as int).drop_first() =~= b@.skip(i + 1));
        i = i + 1;
    }
    if i == a.len() {
        if i == b.len() {
            Ordering::Equal
        } else {
            Ordering::Less
        }
    } else if i == b.len() {
        Ordering::Greater
    } else {
        compare_chars(a[i], b[i])
    }
}

/// The characters of a text, one by one.
pub fn chars_of(s: &str) -> (r: Vec<char>)
    ensures
        r@ == s@,
{
    let mut out: Vec<char> = Vec::new();
    for c in it: s.chars()
        invariant
            out@ == it.seq().take(it.index() as int),
    {
        out.push(c);
    }
    out
}

/// What `char::to_lowercase` yields for a character: its full lowercase
/// mapping, which depends on the character alone.
pub uninterp spec fn lower_of(c: char) -> Seq<char>;

/// Relies on `char::to_lowercase`: the characters of the lowercase mapping.
#[verifier::external_body]
fn lowercase_char(c: char) -> (r: Vec<char>)
    ensures
        r@ == lower_of(c),
{
    c.to_lowercase().collect()
}

/// A text with every character replaced by its full lowercase mapping.
pub open spec fn fold_case(s: Seq<char>) -> Seq<char>
    decreases s.len(),
{
    if s.len() == 0 {
        Seq::empty()
    } else {
        fold_case(s.drop_last()) + lower_of(s.last())
    }
}

pub fn folded(s: &str) -> (r: Vec<char>)
    ensures
        r@ == fold_case(s@),
{
    let chars = chars_of(s);
    let mut out: Vec<char> = Vec::new();
    let mut i: usize = 0;
    while i < chars.len()
        invariant
            i <= chars.len(),
            chars@ == s@,
            out@ == fold_case(chars@.take(i as int)),
        decreases chars.len() - i,
    {
        let mut low = lowercase_char(chars[i]);
        assert(chars@.take(i + 1).drop_last() =~= chars@.take(i as int));
        out.append(&mut low);
        i = i + 1;
    }
    assert(chars@.take(i as int) =~= chars@);
    out
}

} // verus!
