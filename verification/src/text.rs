//! Text comparison and formatting.
use vstd::prelude::*;

verus! {

pub open spec fn ends_with(text: Seq<char>, suffix: Seq<char>) -> bool {
    text.len() >= suffix.len() && text.subrange(text.len() - suffix.len(), text.len() as int)
        == suffix
}

pub fn has_suffix(text: &str, suffix: &str) -> (r: bool)
    ensures
        r == ends_with(text@, suffix@),
{
    let n: usize = text.unicode_len();
    let m: usize = suffix.unicode_len();
    if n < m {
        return false;
    }
    let mut i: usize = 0;
    while i < m
        invariant
            i <= m <= n,
            n == text@.len(),
            m == suffix@.len(),
            forall|k: int| 0 <= k < i ==> text@[n - m + k] == #[trigger] suffix@[k],
        decreases m - i,
    {
        if text.get_char(n - m + i) != suffix.get_char(i) {
            assert(text@.subrange(n - m, n as int)[i as int] == text@[n - m + i]);
            return false;
        }
        i += 1;
    }
    assert(text@.subrange(n - m, n as int) =~= suffix@);
    true
}

pub fn same_text(a: &str, b: &str) -> (r: bool)
    ensures
        r == (a@ == b@),
{
    if a.unicode_len() != b.unicode_len() {
        return false;
    }
    let r = has_suffix(a, b);
    assert(a@.subrange(0, a@.len() as int) =~= a@);
    r
}

/// The number of bytes of a text in UTF-8.
pub open spec fn utf8_len(text: Seq<char>) -> nat {
    vstd::utf8::encode_utf8(text).len()
}

pub fn byte_len(text: &str) -> (n: usize)
    ensures
        n == utf8_len(text@),
{
    text.as_bytes().len()
}

/// A control character: C0, delete, or C1.
pub open spec fn is_control(c: char) -> bool {
    c as u32 <= 0x1f || 0x7f <= c as u32 <= 0x9f
}

pub open spec fn has_control(text: Seq<char>) -> bool {
    exists|i: int| 0 <= i < text.len() && is_control(#[trigger] text[i])
}

pub fn contains_control(text: &str) -> (r: bool)
    ensures
        r == has_control(text@),
{
    let n: usize = text.unicode_len();
    let mut i: usize = 0;
    while i < n
        invariant
            n == text@.len(),
            i <= n,
            forall|k: int| 0 <= k < i ==> !is_control(#[trigger] text@[k]),
        decreases n - i,
    {
        let c: char = text.get_char(i);
        let code: u32 = c as u32;
        if code <= 0x1f || (0x7f <= code && code <= 0x9f) {
            assert(is_control(text@[i as int]));
            return true;
        }
        i += 1;
    }
    false
}

/// Bounded, non-empty text without control characters.
pub open spec fn is_context_text(text: Seq<char>) -> bool {
    text.len() > 0 && utf8_len(text) <= 128 && !has_control(text)
}

pub fn valid_context_text(text: &str) -> (r: bool)
    ensures
        r == is_context_text(text@),
{
    text.unicode_len() > 0 && byte_len(text) <= 128 && !contains_control(text)
}

/// Short printable text without control characters is context text.
pub proof fn lemma_plain_text(text: Seq<char>)
    requires
        0 < text.len() <= 128,
        forall|i: int| 0 <= i < text.len() ==> 0x20 <= (#[trigger] text[i]) as u32 <= 0x7e,
    ensures
        is_context_text(text),
{
    lemma_ascii_len(text);
}

proof fn lemma_ascii_len(text: Seq<char>)
    requires
        forall|i: int| 0 <= i < text.len() ==> (#[trigger] text[i]) as u32 <= 0x7f,
    ensures
        utf8_len(text) == text.len(),
    decreases text.len(),
{
    if text.len() > 0 {
        let rest = text.drop_first();
        assert forall|i: int| 0 <= i < rest.len() implies (#[trigger] rest[i]) as u32 <= 0x7f by {
            assert(rest[i] == text[i + 1]);
        }
        lemma_ascii_len(rest);
    }
}

/// The decimal digits of a number.
pub open spec fn decimal(n: nat) -> Seq<char>
    decreases n,
{
    if n < 10 {
        seq![digit(n)]
    } else {
        decimal(n / 10).push(digit(n % 10))
    }
}

pub open spec fn digit(d: nat) -> char {
    (48 + d) as char
}

/// The decimal form of a signed number.
pub open spec fn signed_decimal(n: int) -> Seq<char> {
    if n < 0 {
        seq!['-'] + decimal((-n) as nat)
    } else {
        decimal(n as nat)
    }
}

fn push_digit(out: &mut String, d: u64)
    requires
        d < 10,
    ensures
        final(out)@ == old(out)@.push(digit(d as nat)),
{
    let text: &str = if d == 0 {
        proof {
            reveal_strlit("0");
        }
        "0"
    } else if d == 1 {
        proof {
            reveal_strlit("1");
        }
        "1"
    } else if d == 2 {
        proof {
            reveal_strlit("2");
        }
        "2"
    } else if d == 3 {
        proof {
            reveal_strlit("3");
        }
        "3"
    } else if d == 4 {
        proof {
            reveal_strlit("4");
        }
        "4"
    } else if d == 5 {
        proof {
            reveal_strlit("5");
        }
        "5"
    } else if d == 6 {
        proof {
            reveal_strlit("6");
        }
        "6"
    } else if d == 7 {
        proof {
            reveal_strlit("7");
        }
        "7"
    } else if d == 8 {
        proof {
            reveal_strlit("8");
        }
        "8"
    } else {
        proof {
            reveal_strlit("9");
        }
        "9"
    };
    assert(text@ =~= seq![digit(d as nat)]);
    out.append(text);
    assert(out@ =~= old(out)@.push(digit(d as nat)));
}

/// Appends a number in decimal.
pub fn push_decimal(out: &mut String, n: u64)
    ensures
        final(out)@ == old(out)@ + decimal(n as nat),
    decreases n,
{
    if n >= 10 {
        push_decimal(out, n / 10);
        push_digit(out, n % 10);
        assert(out@ =~= old(out)@ + decimal(n as nat));
    } else {
        push_digit(out, n);
        assert(out@ =~= old(out)@ + decimal(n as nat));
    }
}

/// Appends a signed number in decimal.
pub fn push_signed(out: &mut String, n: i64)
    ensures
        final(out)@ == old(out)@ + signed_decimal(n as int),
{
    if n < 0 {
        proof {
            reveal_strlit("-");
        }
        out.append("-");
        let magnitude: u64 = (-(n as i128)) as u64;
        push_decimal(out, magnitude);
        assert(out@ =~= old(out)@ + signed_decimal(n as int));
    } else {
        push_decimal(out, n as u64);
    }
}

/// A lower-case hexadecimal digit.
pub open spec fn hex_digit(d: nat) -> char {
    if d < 10 {
        digit(d)
    } else {
        (87 + d) as char
    }
}

/// The lower-case hexadecimal form of bytes, two digits each.
pub open spec fn hexadecimal(bytes: Seq<u8>) -> Seq<char>
    decreases bytes.len(),
{
    if bytes.len() == 0 {
        Seq::empty()
    } else {
        hexadecimal(bytes.drop_last()) + seq![
            hex_digit((bytes.last() / 16) as nat),
            hex_digit((bytes.last() % 16) as nat),
        ]
    }
}

fn push_hex_digit(out: &mut String, d: u8)
    requires
        d < 16,
    ensures
        final(out)@ == old(out)@.push(hex_digit(d as nat)),
{
    if d < 10 {
        push_digit(out, d as u64);
        return;
    }
    let text: &str = if d == 10 {
        proof {
            reveal_strlit("a");
        }
        "a"
    } else if d == 11 {
        proof {
            reveal_strlit("b");
        }
        "b"
    } else if d == 12 {
        proof {
            reveal_strlit("c");
        }
        "c"
    } else if d == 13 {
        proof {
            reveal_strlit("d");
        }
        "d"
    } else if d == 14 {
        proof {
            reveal_strlit("e");
        }
        "e"
    } else {
        proof {
            reveal_strlit("f");
        }
        "f"
    };
    assert(text@ =~= seq![hex_digit(d as nat)]);
    out.append(text);
    assert(out@ =~= old(out)@.push(hex_digit(d as nat)));
}

/// Appends bytes in hexadecimal.
pub fn push_hexadecimal(out: &mut String, bytes: &[u8])
    ensures
        final(out)@ == old(out)@ + hexadecimal(bytes@),
{
    let mut i: usize = 0;
    assert(out@ =~= old(out)@ + hexadecimal(bytes@.take(0)));
    while i < bytes.len()
        invariant
            i <= bytes@.len(),
            out@ == old(out)@ + hexadecimal(bytes@.take(i as int)),
        decreases bytes@.len() - i,
    {
        let byte: u8 = bytes[i];
        push_hex_digit(out, byte / 16);
        push_hex_digit(out, byte % 16);
        i += 1;
        proof {
            let shorter = bytes@.take(i - 1);
            let longer = bytes@.take(i as int);
            assert(longer.drop_last() =~= shorter);
            assert(longer.last() == byte);
            assert(out@ =~= old(out)@ + hexadecimal(longer));
        }
    }
    assert(bytes@.take(i as int) =~= bytes@);
}

/// The number that decimal digits stand for.
pub open spec fn read_decimal(digits: Seq<char>) -> int
    decreases digits.len(),
{
    if digits.len() == 0 {
        0
    } else {
        10 * read_decimal(digits.drop_last()) + (digits.last() as int - 48)
    }
}

/// A number reads back from its decimal digits. There is at least one, all of
/// them are digits, and none leads in vain.
pub proof fn decimals_read_back(n: nat)
    ensures
        read_decimal(decimal(n)) == n,
        decimal(n).len() > 0,
        forall|i: int| 0 <= i < decimal(n).len() ==> '0' <= #[trigger] decimal(n)[i] <= '9',
        n > 0 ==> decimal(n)[0] != '0',
    decreases n,
{
    if n >= 10 {
        decimals_read_back(n / 10);
        let front = decimal(n / 10);
        let whole = decimal(n);
        assert(whole.drop_last() =~= front);
        assert(whole.last() == digit(n % 10));
        assert forall|i: int| 0 <= i < whole.len() implies '0' <= #[trigger] whole[i] <= '9' by {
            if i < front.len() {
                assert(whole[i] == front[i]);
            }
        }
        assert(whole[0] == front[0]);
    } else {
        let whole = decimal(n);
        assert(whole.drop_last() =~= Seq::empty());
        assert(read_decimal(whole.drop_last()) == 0);
    }
}

/// A negative number is its magnitude behind a sign, and no other number has
/// one.
pub proof fn signs_mark_negative_numbers(n: int)
    ensures
        n < 0 ==> signed_decimal(n)[0] == '-' && signed_decimal(n).skip(1) == decimal((-n) as nat),
        n >= 0 ==> signed_decimal(n) == decimal(n as nat) && signed_decimal(n)[0] != '-',
{
    if n < 0 {
        assert(signed_decimal(n).skip(1) =~= decimal((-n) as nat));
    } else {
        decimals_read_back(n as nat);
    }
}

/// Bytes are written as two digits each, and different bytes differently.
pub proof fn hexadecimal_tells_bytes_apart(a: Seq<u8>, b: Seq<u8>)
    ensures
        hexadecimal(a).len() == 2 * a.len(),
        hexadecimal(a) == hexadecimal(b) ==> a == b,
    decreases a.len(),
{
    lemma_hex_len(a);
    lemma_hex_len(b);
    if hexadecimal(a) == hexadecimal(b) {
        assert(a.len() == b.len());
        if a.len() > 0 {
            let (x, y) = (hexadecimal(a), hexadecimal(b));
            let n = x.len() as int;
            assert(x[n - 2] == hex_digit((a.last() / 16) as nat));
            assert(y[n - 2] == hex_digit((b.last() / 16) as nat));
            assert(x[n - 1] == hex_digit((a.last() % 16) as nat));
            assert(y[n - 1] == hex_digit((b.last() % 16) as nat));
            lemma_hex_digits((a.last() / 16) as nat, (b.last() / 16) as nat);
            lemma_hex_digits((a.last() % 16) as nat, (b.last() % 16) as nat);
            assert(x.take(n - 2) =~= hexadecimal(a.drop_last()));
            assert(y.take(n - 2) =~= hexadecimal(b.drop_last()));
            hexadecimal_tells_bytes_apart(a.drop_last(), b.drop_last());
            assert(a =~= a.drop_last().push(a.last()));
            assert(b =~= b.drop_last().push(b.last()));
        } else {
            assert(a =~= b);
        }
    }
}

proof fn lemma_hex_len(a: Seq<u8>)
    ensures
        hexadecimal(a).len() == 2 * a.len(),
    decreases a.len(),
{
    if a.len() > 0 {
        lemma_hex_len(a.drop_last());
    }
}

proof fn lemma_hex_digits(a: nat, b: nat)
    requires
        a < 16,
        b < 16,
    ensures
        hex_digit(a) == hex_digit(b) ==> a == b,
{
}

} // verus!
