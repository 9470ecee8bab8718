//! Pieces of text: comparison, numbers in decimal, JSON strings.

use vstd::prelude::*;

verus! {

/// The texts of a list of strings.
pub open spec fn texts(v: Seq<String>) -> Seq<Seq<char>> {
    v.map_values(|s: String| s@)
}

/// Whether two texts are the same, character by character.
pub fn same_text(a: &str, b: &str) -> (r: bool)
    ensures
        r == (a@ == b@),
{
    a.to_owned() == b.to_owned()
}

/// The decimal digit for `n`.
pub open spec fn digit_char(n: int) -> char {
    (('0' as int) + n) as char
}

/// `n` in decimal, with no leading zero.
pub open spec fn decimal(n: nat) -> Seq<char>
    decreases n,
{
    if n < 10 {
        seq![digit_char(n as int)]
    } else {
        decimal(n / 10).push(digit_char((n % 10) as int))
    }
}

/// The text of one decimal digit.
fn digit_text(d: u64) -> (r: &'static str)
    requires
        d < 10,
    ensures
        r@ == seq![digit_char(d as int)],
{
    proof {
        reveal_strlit("0");
        reveal_strlit("1");
        reveal_strlit("2");
        reveal_strlit("3");
        reveal_strlit("4");
        reveal_strlit("5");
        reveal_strlit("6");
        reveal_strlit("7");
        reveal_strlit("8");
        reveal_strlit("9");
    }
    match d {
        0 => "0",
        1 => "1",
        2 => "2",
        3 => "3",
        4 => "4",
        5 => "5",
        6 => "6",
        7 => "7",
        8 => "8",
        _ => "9",
    }
}

/// `n` in decimal.
pub fn decimal_text(n: u64) -> (r: String)
    ensures
        r@ == decimal(n as nat),
    decreases n,
{
    if n < 10 {
        digit_text(n).to_owned()
    } else {
        decimal_text(n / 10).concat(digit_text(n % 10))
    }
}

/// The lowercase hexadecimal digit for `n`.
pub open spec fn hex_digit(n: int) -> char {
    if n < 10 {
        digit_char(n)
    } else {
        (('a' as int) + n - 10) as char
    }
}

/// How one character stands inside a JSON string: the quote, the backslash and
/// the control characters are escaped, and nothing else.
pub open spec fn json_escape(c: char) -> Seq<char> {
    if c == '"' {
        seq!['\\', '"']
    } else if c == '\\' {
        seq!['\\', '\\']
    } else if c == '\u{8}' {
        seq!['\\', 'b']
    } else if c == '\t' {
        seq!['\\', 't']
    } else if c == '\n' {
        seq!['\\', 'n']
    } else if c == '\u{c}' {
        seq!['\\', 'f']
    } else if c == '\r' {
        seq!['\\', 'r']
    } else if (c as int) < 0x20 {
        seq!['\\', 'u', '0', '0', hex_digit((c as int) / 16), hex_digit((c as int) % 16)]
    } else {
        seq![c]
    }
}

/// The inside of the JSON string that stands for `s`.
pub open spec fn json_escaped(s: Seq<char>) -> Seq<char>
    decreases s.len(),
{
    if s.len() == 0 {
        Seq::empty()
    } else {
        json_escaped(s.drop_last()) + json_escape(s.last())
    }
}

/// The JSON string that stands for `s`, quotes and all.
pub open spec fn json_quoted(s: Seq<char>) -> Seq<char> {
    seq!['"'] + json_escaped(s) + seq!['"']
}

/// Writes a JSON string through `serde_json::to_string`.
///
/// Claimed: the result is the text between double quotes, with the quote, the
/// backslash and the control characters below U+0020 escaped, by a short
/// escape where JSON has one and by `\u00` and two lowercase digits elsewhere.
#[verifier::external_body]
pub(crate) fn json_string(s: &str) -> (r: String)
    ensures
        r@ == json_quoted(s@),
{
    serde_json::to_string(s).unwrap()
}

/// A JSON string never holds a line break, whatever text it stands for: so a
/// JSON text made of such strings fits on one line.
pub proof fn law_json_string_is_one_line(s: Seq<char>)
    ensures
        !json_quoted(s).contains('\n'),
{
    lemma_escaped_has_no_newline(s);
    let q = json_quoted(s);
    assert forall|i: int| 0 <= i < q.len() implies q[i] != '\n' by {
        if 0 < i < q.len() - 1 {
            assert(q[i] == json_escaped(s)[i - 1]);
        }
    }
}

/// A JSON string tells the text it stands for, and where it ends: two texts
/// that begin with JSON strings are the same only where the strings stand for
/// the same text and what follows them is the same.
pub proof fn law_json_string_gives_its_text_back(
    a: Seq<char>,
    b: Seq<char>,
    after_a: Seq<char>,
    after_b: Seq<char>,
)
    requires
        json_quoted(a) + after_a == json_quoted(b) + after_b,
    ensures
        a == b,
        after_a == after_b,
{
    let whole = json_quoted(a) + after_a;
    let rest_a = json_escaped(a) + seq!['"'] + after_a;
    let rest_b = json_escaped(b) + seq!['"'] + after_b;
    assert(whole.skip(1) =~= rest_a);
    assert((json_quoted(b) + after_b).skip(1) =~= rest_b);
    lemma_escaped_gives_text_back(a, b, after_a, after_b);
}

/// Escaping goes character by character, from the first one on.
proof fn lemma_escaped_first(s: Seq<char>)
    requires
        s.len() > 0,
    ensures
        json_escaped(s) == json_escape(s[0]) + json_escaped(s.drop_first()),
    decreases s.len(),
{
    if s.len() == 1 {
        assert(s.drop_last() =~= Seq::<char>::empty());
        assert(s.drop_first() =~= Seq::<char>::empty());
        assert(json_escaped(s) =~= json_escape(s[0]) + json_escaped(s.drop_first()));
    } else {
        lemma_escaped_first(s.drop_last());
        assert(s.drop_last().drop_first() =~= s.drop_first().drop_last());
        assert(json_escaped(s) =~= json_escape(s[0]) + json_escaped(s.drop_first()));
    }
}

/// What a character is escaped to tells the character, and where it ends.
#[verifier::rlimit(40)]
proof fn lemma_escape_gives_char_back(c: char, d: char, x: Seq<char>, y: Seq<char>)
    requires
        json_escape(c) + x == json_escape(d) + y,
    ensures
        c == d,
        x == y,
{
    let e = json_escape(c);
    let f = json_escape(d);
    let whole = e + x;
    if (c as int) < 0x20 {
        lemma_hex_digit((c as int) / 16);
        lemma_hex_digit((c as int) % 16);
    }
    if (d as int) < 0x20 {
        lemma_hex_digit((d as int) / 16);
        lemma_hex_digit((d as int) % 16);
    }
    assert(whole[0] == e[0] && whole[0] == (f + y)[0] && (f + y)[0] == f[0]);
    if e.len() > 1 && f.len() > 1 {
        assert(whole[1] == e[1] && whole[1] == (f + y)[1] && (f + y)[1] == f[1]);
        if e.len() > 2 && f.len() > 2 {
            assert(whole[4] == e[4] && whole[4] == (f + y)[4] && (f + y)[4] == f[4]);
            assert(whole[5] == e[5] && whole[5] == (f + y)[5] && (f + y)[5] == f[5]);
        }
    }
    assert(c == d);
    assert(x =~= whole.skip(e.len() as int));
    assert(y =~= (f + y).skip(f.len() as int));
}

/// The rest of a JSON string after its opening quote, taken apart from the
/// front: a quote follows where the text is over, and else the first character,
/// which does not begin with one.
proof fn lemma_escaped_begins(s: Seq<char>, after: Seq<char>)
    ensures
        s.len() == 0 ==> json_escaped(s) + seq!['"'] + after == seq!['"'] + after,
        s.len() > 0 ==> json_escaped(s) + seq!['"'] + after == json_escape(s[0]) + (json_escaped(
            s.drop_first(),
        ) + seq!['"'] + after),
        (json_escaped(s) + seq!['"'] + after).len() > 0,
        (json_escaped(s) + seq!['"'] + after)[0] == '"' <==> s.len() == 0,
{
    let rest = json_escaped(s) + seq!['"'] + after;
    if s.len() == 0 {
        assert(rest =~= seq!['"'] + after);
    } else {
        let first = json_escape(s[0]);
        lemma_escaped_first(s);
        lemma_escape_begins(s[0]);
        assert(rest =~= first + (json_escaped(s.drop_first()) + seq!['"'] + after));
        assert(rest[0] == first[0]);
    }
}

proof fn lemma_escape_begins(c: char)
    ensures
        json_escape(c).len() > 0,
        json_escape(c)[0] != '"',
{
}

proof fn lemma_escaped_gives_text_back(
    a: Seq<char>,
    b: Seq<char>,
    after_a: Seq<char>,
    after_b: Seq<char>,
)
    requires
        json_escaped(a) + seq!['"'] + after_a == json_escaped(b) + seq!['"'] + after_b,
    ensures
        a == b,
        after_a == after_b,
    decreases a.len(),
{
    lemma_escaped_begins(a, after_a);
    lemma_escaped_begins(b, after_b);
    if a.len() == 0 {
        assert(a =~= b);
        assert(after_a =~= (seq!['"'] + after_a).skip(1));
        assert(after_b =~= (seq!['"'] + after_b).skip(1));
    } else {
        let more_a = json_escaped(a.drop_first()) + seq!['"'] + after_a;
        let more_b = json_escaped(b.drop_first()) + seq!['"'] + after_b;
        lemma_escape_gives_char_back(a[0], b[0], more_a, more_b);
        lemma_escaped_gives_text_back(a.drop_first(), b.drop_first(), after_a, after_b);
        assert(a =~= seq![a[0]] + a.drop_first());
        assert(b =~= seq![b[0]] + b.drop_first());
    }
}

/// A decimal digit tells its value.
proof fn lemma_digit_char(n: int)
    requires
        0 <= n < 10,
    ensures
        digit_char(n) as int == 0x30 + n,
{
}

/// A number in decimal is made of digits.
proof fn lemma_decimal_is_digits(n: nat)
    ensures
        decimal(n).len() > 0,
        forall|i: int| 0 <= i < decimal(n).len() ==> is_digit(#[trigger] decimal(n)[i]),
    decreases n,
{
    lemma_digit_char((n % 10) as int);
    if n >= 10 {
        lemma_decimal_is_digits(n / 10);
        let digits = decimal(n / 10);
        assert forall|i: int| 0 <= i < decimal(n).len() implies is_digit(
            #[trigger] decimal(n)[i],
        ) by {
            if i < digits.len() {
                assert(decimal(n)[i] == digits[i]);
            }
        }
    }
}

/// Whether a character is a decimal digit.
pub open spec fn is_digit(c: char) -> bool {
    '0' <= c <= '9'
}

/// A number in decimal tells the number.
pub proof fn law_decimal_is_unique(a: nat, b: nat)
    requires
        decimal(a) == decimal(b),
    ensures
        a == b,
    decreases a,
{
    lemma_digit_char((a % 10) as int);
    lemma_digit_char((b % 10) as int);
    if a >= 10 {
        lemma_decimal_is_digits(a / 10);
        assert(decimal(a).drop_last() =~= decimal(a / 10));
    }
    if b >= 10 {
        lemma_decimal_is_digits(b / 10);
        assert(decimal(b).drop_last() =~= decimal(b / 10));
    }
    assert(decimal(a).last() == digit_char((a % 10) as int));
    assert(decimal(b).last() == digit_char((b % 10) as int));
    assert(a < 10 <==> decimal(a).len() == 1);
    assert(b < 10 <==> decimal(b).len() == 1);
    if a >= 10 {
        law_decimal_is_unique(a / 10, b / 10);
    }
}

/// A number in decimal tells where it ends, before anything that is no digit.
pub proof fn lemma_decimal_ends(a: nat, b: nat, x: Seq<char>, y: Seq<char>)
    requires
        decimal(a) + x == decimal(b) + y,
        x.len() > 0 && !is_digit(x[0]),
        y.len() > 0 && !is_digit(y[0]),
    ensures
        a == b,
        x == y,
{
    let p = decimal(a);
    let q = decimal(b);
    let whole = p + x;
    lemma_decimal_is_digits(a);
    lemma_decimal_is_digits(b);
    if p.len() < q.len() {
        assert(whole[p.len() as int] == x[0]);
        assert((q + y)[p.len() as int] == q[p.len() as int]);
    }
    if q.len() < p.len() {
        assert((q + y)[q.len() as int] == y[0]);
        assert(whole[q.len() as int] == p[q.len() as int]);
    }
    assert(p =~= whole.take(p.len() as int));
    assert(q =~= (q + y).take(q.len() as int));
    assert(x =~= whole.skip(p.len() as int));
    assert(y =~= (q + y).skip(q.len() as int));
    law_decimal_is_unique(a, b);
}

/// A hexadecimal digit is one of the sixteen, and tells its value.
pub proof fn lemma_hex_digit(n: int)
    requires
        0 <= n < 16,
    ensures
        hex_digit(n) as int == if n < 10 {
            0x30 + n
        } else {
            0x57 + n
        },
{
}

/// A number in decimal holds no line break.
pub proof fn lemma_decimal_has_no_break(n: nat)
    ensures
        !decimal(n).contains('\n'),
    decreases n,
{
    if n >= 10 {
        lemma_decimal_has_no_break(n / 10);
        let digits = decimal(n / 10);
        let last = digit_char((n % 10) as int);
        assert(last as int >= 0x30);
        assert forall|i: int| 0 <= i < decimal(n).len() implies decimal(n)[i] != '\n' by {
            if i < digits.len() {
                assert(decimal(n)[i] == digits[i]);
            }
        }
    }
}

proof fn lemma_escape_has_no_newline(c: char)
    ensures
        forall|i: int| 0 <= i < json_escape(c).len() ==> json_escape(c)[i] != '\n',
{
    if (c as int) < 0x20 {
        lemma_hex_digit((c as int) / 16);
        lemma_hex_digit((c as int) % 16);
    }
}

proof fn lemma_escaped_has_no_newline(s: Seq<char>)
    ensures
        forall|i: int| 0 <= i < json_escaped(s).len() ==> json_escaped(s)[i] != '\n',
    decreases s.len(),
{
    if s.len() > 0 {
        lemma_escaped_has_no_newline(s.drop_last());
        let head = json_escaped(s.drop_last());
        let tail = json_escape(s.last());
        lemma_escape_has_no_newline(s.last());
        assert forall|i: int| 0 <= i < json_escaped(s).len() implies json_escaped(s)[i]
            != '\n' by {
            if i < head.len() {
                assert(json_escaped(s)[i] == head[i]);
            } else {
                assert(json_escaped(s)[i] == tail[i - head.len()]);
            }
        }
    }
}

/// The number that a row of decimal digits stands for.
pub open spec fn number_of(digits: Seq<char>) -> int
    decreases digits.len(),
{
    if digits.len() == 0 {
        0
    } else {
        10 * number_of(digits.drop_last()) + (digits.last() as int - '0' as int)
    }
}

/// A number in decimal is a row of digits that stands for the number, and does
/// not start with a zero unless it is one.
pub proof fn law_decimal_stands_for_its_number(n: nat)
    ensures
        number_of(decimal(n)) == n,
        decimal(n).len() > 0,
        decimal(n)[0] == '0' ==> n == 0 && decimal(n).len() == 1,
        forall|i: int| 0 <= i < decimal(n).len() ==> '0' <= #[trigger] decimal(n)[i] <= '9',
    decreases n,
{
    lemma_decimal_is_digits(n);
    lemma_digit_char((n % 10) as int);
    if n < 10 {
        assert(decimal(n).drop_last() =~= Seq::<char>::empty());
        assert(number_of(decimal(n).drop_last()) == 0);
    } else {
        law_decimal_stands_for_its_number(n / 10);
        assert(decimal(n).drop_last() =~= decimal(n / 10));
        assert(decimal(n)[0] == decimal(n / 10)[0]);
    }
}

/// The texts of a list of strings are those of each string, whole and in order.
pub proof fn law_texts_are_whole(v: Seq<String>)
    ensures
        texts(v).len() == v.len(),
        forall|i: int| 0 <= i < v.len() ==> #[trigger] texts(v)[i] == v[i]@,
{
}

} // verus!
