//! Text the compositor puts together for its clients.

use vstd::prelude::*;
use vstd::string::StringExecFns;
use vstd::utf8::*;

verus! {

/// The decimal digit of a number below ten.
pub open spec fn digit(n: nat) -> char {
    (48 + n) as char
}

/// A number in decimal, without leading zeros.
pub open spec fn decimal(n: nat) -> Seq<char>
    decreases n,
{
    if n < 10 {
        seq![digit(n)]
    } else {
        decimal(n / 10).push(digit(n % 10))
    }
}

fn digit_text(n: u32) -> (r: &'static str)
    requires
        n < 10,
    ensures
        r@ == seq![digit(n as nat)],
{
    proof {
        reveal_strlit("0");
        reveal_strlit("1");
        reveal_strlit("2");
        reveal_strlit("3");
        reveal_strlit("4");
        reveal_strlit("5");
        reveal_strlit("6");
        reveal_strlit("7");
        reveal_strlit("8");
        reveal_strlit("9");
    }
    let r = match n {
        0 => "0",
        1 => "1",
        2 => "2",
        3 => "3",
        4 => "4",
        5 => "5",
        6 => "6",
        7 => "7",
        8 => "8",
        _ => "9",
    };
    assert(r@ =~= seq![digit(n as nat)]);
    r
}

/// Write a number in decimal.
pub fn decimal_text(n: u32) -> (r: String)
    ensures
        r@ == decimal(n as nat),
        r@.len() <= 10,
    decreases n,
{
    if n < 10 {
        let mut r = String::new();
        r.append(digit_text(n));
        assert(r@ =~= decimal(n as nat));
        r
    } else {
        let mut r = decimal_text(n / 10);
        r.append(digit_text(n % 10));
        assert(r@ =~= decimal(n as nat));
        proof {
            reveal_with_fuel(pow10, 11);
            lemma_decimal_len(n as nat, 10);
        }
        r
    }
}

/// How many digits it takes.
proof fn lemma_decimal_len(n: nat, digits: nat)
    requires
        digits >= 1,
        n < pow10(digits),
    ensures
        decimal(n).len() <= digits,
    decreases digits,
{
    reveal_with_fuel(pow10, 11);
    if n >= 10 {
        if digits == 1 {
            assert(pow10(1) == 10);
        } else {
            assert(n / 10 < pow10((digits - 1) as nat)) by (nonlinear_arith)
                requires
                    n < pow10(digits),
                    pow10(digits) == 10 * pow10((digits - 1) as nat),
            ;
            lemma_decimal_len(n / 10, (digits - 1) as nat);
        }
    }
}

spec fn pow10(n: nat) -> nat
    decreases n,
{
    if n == 0 {
        1
    } else {
        10 * pow10((n - 1) as nat)
    }
}

/// Put three pieces of text together.
pub fn joined(a: &str, b: &str, c: &str) -> (r: String)
    ensures
        r@ == a@ + b@ + c@,
{
    let mut r = String::new();
    r.append(a);
    r.append(b);
    r.append(c);
    assert(r@ =~= a@ + b@ + c@);
    r
}

/// No character takes more than four bytes.
pub proof fn lemma_encoded_len(s: Seq<char>)
    ensures
        encode_utf8(s).len() <= 4 * s.len(),
    decreases s.len(),
{
    reveal_with_fuel(encode_utf8, 1);
    if s.len() > 0 {
        lemma_encoded_len(s.drop_first());
    }
}

/// The characters of some text.
pub fn chars_of(s: &str) -> (r: Vec<char>)
    ensures
        r@ == s@,
{
    let mut r: Vec<char> = Vec::new();
    for c in it: s.chars()
        invariant
            r@ == it.seq().take(it.index()),
            it.seq() == s@,
    {
        r.push(c);
        assert(r@ =~= it.seq().take(it.index() + 1));
    }
    assert(r@ =~= s@);
    r
}

/// A character that separates words: Unicode's white space.
pub open spec fn is_space(c: char) -> bool {
    ||| 0x9 <= c as int <= 0xd
    ||| c as int == 0x20
    ||| c as int == 0x85
    ||| c as int == 0xa0
    ||| c as int == 0x1680
    ||| 0x2000 <= c as int <= 0x200a
    ||| 0x2028 <= c as int <= 0x2029
    ||| c as int == 0x202f
    ||| c as int == 0x205f
    ||| c as int == 0x3000
}

/// A stretch of text is a word of it: it has no space in it, and nothing but
/// space about it.
pub open spec fn is_word(text: Seq<char>, from: int, to: int) -> bool {
    &&& 0 <= from < to <= text.len()
    &&& forall|i: int| from <= i < to ==> !is_space(#[trigger] text[i])
    &&& from == 0 || is_space(text[from - 1])
    &&& to == text.len() || is_space(text[to])
}

/// A word is in some text.
pub open spec fn has_word(text: Seq<char>, wanted: Seq<char>) -> bool {
    exists|from: int, to: int| #[trigger]
        is_word(text, from, to) && text.subrange(from, to) == wanted
}

/// Whether a character separates words.
fn separates(c: char) -> (r: bool)
    ensures
        r == is_space(c),
{
    let n: u32 = c as u32;
    (n >= 0x9 && n <= 0xd) || n == 0x20 || n == 0x85 || n == 0xa0 || n == 0x1680 || (n >= 0x2000
        && n <= 0x200a) || (n >= 0x2028 && n <= 0x2029) || n == 0x202f || n == 0x205f || n == 0x3000
}

/// Whether a stretch of text is some other text.
fn stretch_is(text: &Vec<char>, from: usize, to: usize, wanted: &Vec<char>) -> (r: bool)
    requires
        from <= to <= text@.len(),
    ensures
        r == (text@.subrange(from as int, to as int) == wanted@),
{
    if to - from != wanted.len() {
        return false;
    }
    let mut i: usize = 0;
    while i < wanted.len()
        invariant
            from <= to <= text@.len(),
            to - from == wanted@.len(),
            i <= wanted@.len(),
            forall|j: int| 0 <= j < i ==> text@[from + j] == wanted@[j],
        decreases wanted@.len() - i,
    {
        if text[from + i] != wanted[i] {
            assert(text@.subrange(from as int, to as int)[i as int] != wanted@[i as int]);
            return false;
        }
        i = i + 1;
    }
    assert(text@.subrange(from as int, to as int) =~= wanted@);
    true
}

/// Whether a word is in some text, words being what white space separates.
pub fn contains_word(text: &str, wanted: &str) -> (r: bool)
    ensures
        r == has_word(text@, wanted@),
{
    let chars = chars_of(text);
    let word = chars_of(wanted);
    let mut i: usize = 0;
    while i < chars.len()
        invariant
            chars@ == text@,
            word@ == wanted@,
            i <= chars@.len(),
            i == 0 || i == chars@.len() || is_space(chars@[i - 1]) || is_space(chars@[i as int]),
            forall|from: int, to: int|
                from < i && #[trigger] is_word(chars@, from, to) ==> chars@.subrange(from, to)
                    != wanted@,
        decreases chars@.len() - i,
    {
        if separates(chars[i]) {
            i = i + 1;
        } else {
            let mut end: usize = i + 1;
            while end < chars.len() && !separates(chars[end])
                invariant
                    i < end <= chars@.len(),
                    forall|j: int| i <= j < end ==> !is_space(#[trigger] chars@[j]),
                decreases chars@.len() - end,
            {
                end = end + 1;
            }
            assert(is_word(chars@, i as int, end as int));
            if stretch_is(&chars, i, end, &word) {
                return true;
            }
            assert forall|from: int, to: int|
                from < end && #[trigger] is_word(chars@, from, to) implies chars@.subrange(from, to)
                != wanted@ by {
                if from > i {
                    assert(!is_space(chars@[from - 1]));
                } else if from == i {
                    if to < end {
                        assert(!is_space(chars@[to]));
                    } else if to > end {
                        assert(is_space(chars@[end as int]));
                    }
                }
            }
            i = end;
        }
    }
    false
}

/// `String::push` appends a character to the end of the text, and changes
/// nothing else of it.
pub assume_specification[ std::string::String::push ](s: &mut String, c: char)
    ensures
        final(s)@ == old(s)@.push(c),
;

/// Put some characters together.
pub fn text_of(chars: &Vec<char>) -> (r: String)
    ensures
        r@ == chars@,
{
    let mut r = String::new();
    let mut i: usize = 0;
    while i < chars.len()
        invariant
            i <= chars@.len(),
            r@ == chars@.take(i as int),
        decreases chars@.len() - i,
    {
        r.push(chars[i]);
        assert(r@ =~= chars@.take(i as int + 1));
        i = i + 1;
    }
    assert(r@ =~= chars@);
    r
}

} // verus!
