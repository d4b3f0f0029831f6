//! Text helpers: decimal rendering, identifiers, comparison and trimming.

use vstd::prelude::*;

verus! {

/// The decimal digit that stands for `d` (taken modulo ten).
pub open spec fn digit_char(d: nat) -> char {
    let d: nat = d % 10;
    if d == 0 {
        '0'
    } else if d == 1 {
        '1'
    } else if d == 2 {
        '2'
    } else if d == 3 {
        '3'
    } else if d == 4 {
        '4'
    } else if d == 5 {
        '5'
    } else if d == 6 {
        '6'
    } else if d == 7 {
        '7'
    } else if d == 8 {
        '8'
    } else {
        '9'
    }
}

/// The value of a decimal digit character (0 for anything else).
pub open spec fn digit_value(c: char) -> nat {
    if c == '1' {
        1
    } else if c == '2' {
        2
    } else if c == '3' {
        3
    } else if c == '4' {
        4
    } else if c == '5' {
        5
    } else if c == '6' {
        6
    } else if c == '7' {
        7
    } else if c == '8' {
        8
    } else if c == '9' {
        9
    } else {
        0
    }
}

/// `n` written in decimal, left-padded with zeros to at least `width` digits.
pub open spec fn padded_digits(n: nat, width: nat) -> Seq<char>
    decreases n + width,
{
    if n == 0 && width == 0 {
        Seq::empty()
    } else {
        padded_digits(n / 10, if width > 0 { (width - 1) as nat } else { 0 }).push(
            digit_char(n % 10),
        )
    }
}

/// `n` written in decimal, as `Display` writes an unsigned integer.
pub open spec fn decimal(n: nat) -> Seq<char> {
    padded_digits(n, 1)
}

/// The number that a string of decimal digits denotes.
pub open spec fn digits_value(s: Seq<char>) -> nat
    decreases s.len(),
{
    if s.len() == 0 {
        0
    } else {
        digits_value(s.drop_last()) * 10 + digit_value(s.last())
    }
}

/// Reading back a padded decimal rendering gives the number rendered.
pub proof fn lemma_padded_digits_value(n: nat, width: nat)
    ensures
        digits_value(padded_digits(n, width)) == n,
    decreases n + width,
{
    if n == 0 && width == 0 {
    } else {
        let w: nat = if width > 0 { (width - 1) as nat } else { 0 };
        lemma_padded_digits_value(n / 10, w);
        let s = padded_digits(n, width);
        assert(s.drop_last() =~= padded_digits(n / 10, w));
        assert(digit_value(digit_char(n % 10)) == n % 10);
        assert(n == (n / 10) * 10 + n % 10);
    }
}

/// No character of a decimal rendering is a comma, and a rendering with a
/// positive width is never empty.
pub proof fn lemma_padded_digits_no_comma(n: nat, width: nat)
    ensures
        forall|i: int|
            0 <= i < padded_digits(n, width).len() ==> #[trigger] padded_digits(n, width)[i] != ',',
        width > 0 ==> padded_digits(n, width).len() > 0,
    decreases n + width,
{
    if n == 0 && width == 0 {
    } else {
        let w: nat = if width > 0 { (width - 1) as nat } else { 0 };
        lemma_padded_digits_no_comma(n / 10, w);
        let s = padded_digits(n, width);
        let r = padded_digits(n / 10, w);
        assert forall|i: int| 0 <= i < s.len() implies #[trigger] s[i] != ',' by {
            if i < r.len() {
                assert(s[i] == r[i]);
            }
        }
    }
}

/// The identifier text made of `prefix` and the counter value `n`, zero-padded
/// to six digits.
pub open spec fn id_text(prefix: Seq<char>, n: nat) -> Seq<char> {
    prefix + padded_digits(n, 6)
}

/// Two identifiers with the same prefix are equal only for equal counter values.
pub proof fn lemma_id_text_injective(prefix: Seq<char>, a: nat, b: nat)
    ensures
        id_text(prefix, a) == id_text(prefix, b) ==> a == b,
{
    if id_text(prefix, a) == id_text(prefix, b) {
        let ta = id_text(prefix, a);
        let tb = id_text(prefix, b);
        assert(ta.subrange(prefix.len() as int, ta.len() as int) =~= padded_digits(a, 6));
        assert(tb.subrange(prefix.len() as int, tb.len() as int) =~= padded_digits(b, 6));
        lemma_padded_digits_value(a, 6);
        lemma_padded_digits_value(b, 6);
    }
}

/// The one-character text of the digit `d`.
fn digit_text(d: u64) -> (t: &'static str)
    requires
        d < 10,
    ensures
        t@ == seq![digit_char(d as nat)],
{
    if d == 0 {
        proof {
            reveal_strlit("0");
        }
        "0"
    } else if d == 1 {
        proof {
            reveal_strlit("1");
        }
        "1"
    } else if d == 2 {
        proof {
            reveal_strlit("2");
        }
        "2"
    } else if d == 3 {
        proof {
            reveal_strlit("3");
        }
        "3"
    } else if d == 4 {
        proof {
            reveal_strlit("4");
        }
        "4"
    } else if d == 5 {
        proof {
            reveal_strlit("5");
        }
        "5"
    } else if d == 6 {
        proof {
            reveal_strlit("6");
        }
        "6"
    } else if d == 7 {
        proof {
            reveal_strlit("7");
        }
        "7"
    } else if d == 8 {
        proof {
            reveal_strlit("8");
        }
        "8"
    } else {
        proof {
            reveal_strlit("9");
        }
        "9"
    }
}

/// Appends `n` in decimal, zero-padded to at least `width` digits.
pub fn push_padded(out: &mut String, n: u64, width: u64)
    ensures
        final(out)@ == old(out)@ + padded_digits(n as nat, width as nat),
    decreases n + width,
{
    if n == 0 && width == 0 {
        assert(old(out)@ + padded_digits(n as nat, width as nat) =~= old(out)@);
        return ;
    }
    let w: u64 = if width > 0 {
        width - 1
    } else {
        0
    };
    push_padded(out, n / 10, w);
    out.append(digit_text(n % 10));
    assert(padded_digits(n as nat, width as nat) == padded_digits((n / 10) as nat, w as nat).push(
        digit_char((n % 10) as nat),
    ));
    assert(final(out)@ =~= old(out)@ + padded_digits(n as nat, width as nat));
}

/// `n` in decimal, as `to_string` renders a `u64`.
pub fn decimal_text(n: u64) -> (s: String)
    ensures
        s@ == decimal(n as nat),
{
    let mut s = String::new();
    push_padded(&mut s, n, 1);
    assert(s@ =~= decimal(n as nat));
    s
}

/// The identifier `prefix` followed by `n` zero-padded to six digits.
pub fn make_id(prefix: &str, n: u64) -> (s: String)
    ensures
        s@ == id_text(prefix@, n as nat),
{
    let mut s = prefix.to_owned();
    push_padded(&mut s, n, 6);
    s
}

/// Whether two strings hold the same characters, compared byte by byte as
/// `str`'s `==` compares them.
pub fn same_text(a: &str, b: &str) -> (r: bool)
    ensures
        r == (a@ == b@),
{
    let x = a.as_bytes();
    let y = b.as_bytes();
    proof {
        vstd::utf8::encode_utf8_decode_utf8(a@);
        vstd::utf8::encode_utf8_decode_utf8(b@);
    }
    if x.len() != y.len() {
        return false;
    }
    let mut i: usize = 0;
    while i < x.len()
        invariant
            x@ == vstd::utf8::encode_utf8(a@),
            y@ == vstd::utf8::encode_utf8(b@),
            x@.len() == y@.len(),
            i <= x@.len(),
            forall|j: int| 0 <= j < i ==> x@[j] == y@[j],
        decreases x@.len() - i,
    {
        if x[i] != y[i] {
            return false;
        }
        i = i + 1;
    }
    assert(x@ =~= y@);
    true
}

/// Whether `c` has the Unicode `White_Space` property, which is what
/// `char::is_whitespace` tests: U+0009 to U+000D, U+0020, U+0085, U+00A0,
/// U+1680, U+2000 to U+200A, U+2028, U+2029, U+202F, U+205F and U+3000.
pub open spec fn is_white_space(c: char) -> bool {
    let u = c as u32;
    ||| 0x9 <= u <= 0xd
    ||| u == 0x20
    ||| u == 0x85
    ||| u == 0xa0
    ||| u == 0x1680
    ||| 0x2000 <= u <= 0x200a
    ||| u == 0x2028
    ||| u == 0x2029
    ||| u == 0x202f
    ||| u == 0x205f
    ||| u == 0x3000
}

/// `s` without its leading white space.
pub open spec fn trim_start(s: Seq<char>) -> Seq<char>
    decreases s.len(),
{
    if s.len() > 0 && is_white_space(s[0]) {
        trim_start(s.drop_first())
    } else {
        s
    }
}

/// `s` without its trailing white space.
pub open spec fn trim_end(s: Seq<char>) -> Seq<char>
    decreases s.len(),
{
    if s.len() > 0 && is_white_space(s.last()) {
        trim_end(s.drop_last())
    } else {
        s
    }
}

/// What `str::trim` leaves of a string: the text without leading and trailing
/// white space.
pub open spec fn trimmed(s: Seq<char>) -> Seq<char> {
    trim_end(trim_start(s))
}

/// `str::trim`: the string with leading and trailing white space (as
/// `char::is_whitespace` defines it) removed.
#[verifier::external_body]
pub fn trim_text(s: &str) -> (r: &str)
    ensures
        r@ == trimmed(s@),
{
    s.trim()
}

/// Byte-wise lexicographic order, the order of `str` comparison.
pub open spec fn bytes_le(a: Seq<u8>, b: Seq<u8>) -> bool
    decreases a.len(),
{
    if a.len() == 0 {
        true
    } else if b.len() == 0 {
        false
    } else if a[0] != b[0] {
        a[0] < b[0]
    } else {
        bytes_le(a.drop_first(), b.drop_first())
    }
}

pub proof fn lemma_bytes_le_total(a: Seq<u8>, b: Seq<u8>)
    ensures
        bytes_le(a, b) || bytes_le(b, a),
    decreases a.len(),
{
    if a.len() > 0 && b.len() > 0 && a[0] == b[0] {
        lemma_bytes_le_total(a.drop_first(), b.drop_first());
    }
}

pub proof fn lemma_bytes_le_transitive(a: Seq<u8>, b: Seq<u8>, c: Seq<u8>)
    requires
        bytes_le(a, b),
        bytes_le(b, c),
    ensures
        bytes_le(a, c),
    decreases a.len(),
{
    if a.len() > 0 && b.len() > 0 && c.len() > 0 && a[0] == b[0] && b[0] == c[0] {
        lemma_bytes_le_transitive(a.drop_first(), b.drop_first(), c.drop_first());
    }
}

/// Whether `a` sorts at or before `b` as `str`'s `Ord` orders them.
pub fn text_le(a: &str, b: &str) -> (r: bool)
    ensures
        r == bytes_le(vstd::utf8::encode_utf8(a@), vstd::utf8::encode_utf8(b@)),
{
    let x = a.as_bytes();
    let y = b.as_bytes();
    let mut i: usize = 0;
    assert(x@.skip(0) =~= x@);
    assert(y@.skip(0) =~= y@);
    while i < x.len() && i < y.len() && x[i] == y[i]
        invariant
            x@ == vstd::utf8::encode_utf8(a@),
            y@ == vstd::utf8::encode_utf8(b@),
            i <= x@.len(),
            i <= y@.len(),
            bytes_le(x@, y@) == bytes_le(x@.skip(i as int), y@.skip(i as int)),
        decreases x@.len() - i,
    {
        assert(x@.skip(i as int).drop_first() =~= x@.skip(i + 1));
        assert(y@.skip(i as int).drop_first() =~= y@.skip(i + 1));
        i = i + 1;
    }
    if i == x.len() {
        true
    } else if i == y.len() {
        false
    } else {
        x[i] < y[i]
    }
}

} // verus!
