use vstd::prelude::*;
use vstd::string::*;
use vstd::utf8::{decode_utf8, encode_utf8, valid_utf8};

verus! {

/// The bytes of a piece of text.
pub open spec fn text(s: Seq<char>) -> Seq<u8> {
    encode_utf8(s)
}

/// Whether `s` begins with `prefix`.
pub open spec fn starts_with(s: Seq<u8>, prefix: Seq<u8>) -> bool {
    prefix.len() <= s.len() && s.take(prefix.len() as int) == prefix
}

/// What follows `prefix` in `s`, where `s` begins with it.
pub open spec fn after(s: Seq<u8>, prefix: Seq<u8>) -> Option<Seq<u8>> {
    if starts_with(s, prefix) {
        Some(s.skip(prefix.len() as int))
    } else {
        None
    }
}

/// What begins with a prefix is followed by the rest.
pub proof fn lemma_after(prefix: Seq<u8>, rest: Seq<u8>)
    ensures
        after(prefix + rest, prefix) == Some(rest),
{
    assert((prefix + rest).take(prefix.len() as int) =~= prefix);
    assert((prefix + rest).skip(prefix.len() as int) =~= rest);
}

/// Appends the bytes of a piece of text.
pub fn put_text(out: &mut Vec<u8>, piece: &str)
    ensures
        final(out)@ == old(out)@ + text(piece@),
{
    let bytes = piece.as_bytes();
    let mut i: usize = 0;
    assert(bytes@.take(0) =~= Seq::<u8>::empty());
    assert(out@ =~= old(out)@ + bytes@.take(0));
    while i < bytes.len()
        invariant
            i <= bytes.len(),
            out@ == old(out)@ + bytes@.take(i as int),
        decreases bytes.len() - i,
    {
        out.push(bytes[i]);
        assert(bytes@.take(i as int + 1) =~= bytes@.take(i as int).push(bytes@[i as int]));
        assert(out@ =~= old(out)@ + bytes@.take(i as int + 1));
        i += 1;
    }
    assert(bytes@.take(bytes.len() as int) =~= bytes@);
}

/// Steps over a piece of text at `pos`, where the input has it there.
pub(crate) fn take_text(bytes: &Vec<u8>, pos: usize, piece: &str) -> (r: Option<usize>)
    requires
        pos <= bytes.len(),
    ensures
        match r {
            Some(next) => pos <= next <= bytes.len() && after(bytes@.skip(pos as int), text(piece@)) == Some(
                bytes@.skip(next as int),
            ),
            None => after(bytes@.skip(pos as int), text(piece@)) is None,
        },
{
    let want = piece.as_bytes();
    let ghost s = bytes@.skip(pos as int);
    if want.len() > bytes.len() - pos {
        return None;
    }
    let mut i: usize = 0;
    while i < want.len()
        invariant
            i <= want.len(),
            want.len() <= bytes.len() - pos,
            want@ == text(piece@),
            s == bytes@.skip(pos as int),
            forall|j: int| 0 <= j < i ==> s[j] == want@[j],
        decreases want.len() - i,
    {
        if bytes[pos + i] != want[i] {
            proof {
                assert(s[i as int] == bytes@[pos + i]);
                assert(s.take(want.len() as int)[i as int] == s[i as int]);
                assert(s.take(want.len() as int) != want@);
            }
            return None;
        }
        i += 1;
    }
    assert(s.take(want.len() as int) =~= want@);
    assert(s.skip(want.len() as int) =~= bytes@.skip(pos + want.len()));
    Some(pos + want.len())
}

/// Whether a byte is a decimal digit.
pub open spec fn is_digit(b: u8) -> bool {
    48 <= b <= 57
}

/// A natural number in decimal, without leading zeros.
pub open spec fn digits(n: nat) -> Seq<u8>
    decreases n,
{
    if n < 10 {
        seq![(48 + n) as u8]
    } else {
        digits(n / 10).push((48 + n % 10) as u8)
    }
}

/// An integer in decimal: a minus sign before a negative one.
pub open spec fn number(n: int) -> Seq<u8> {
    if n < 0 {
        seq![45u8] + digits((-n) as nat)
    } else {
        digits(n as nat)
    }
}

/// How many digits stand at the start of `s`.
pub open spec fn digit_run(s: Seq<u8>) -> nat
    decreases s.len(),
{
    if s.len() > 0 && is_digit(s[0]) {
        1 + digit_run(s.drop_first())
    } else {
        0
    }
}

/// The number that a run of digits spells.
pub open spec fn digits_value(run: Seq<u8>) -> nat
    decreases run.len(),
{
    if run.len() == 0 {
        0
    } else {
        digits_value(run.drop_last()) * 10 + (run.last() - 48) as nat
    }
}

/// Reads an integer of at most ten digits, with `-` before it or not, and
/// gives what follows it.
pub open spec fn parse_number(s: Seq<u8>) -> Option<(int, Seq<u8>)> {
    let negative = s.len() > 0 && s[0] == 45;
    let body = if negative {
        s.skip(1)
    } else {
        s
    };
    let k = digit_run(body);
    if k == 0 || k > 10 {
        None
    } else {
        let magnitude = digits_value(body.take(k as int)) as int;
        Some(
            (
                if negative {
                    -magnitude
                } else {
                    magnitude
                },
                body.skip(k as int),
            ),
        )
    }
}

/// Ten to the power of `k`.
pub open spec fn pow10(k: nat) -> nat
    decreases k,
{
    if k == 0 {
        1
    } else {
        10 * pow10((k - 1) as nat)
    }
}

/// A run of `k` digits followed by no further digit is the whole run.
pub proof fn lemma_digit_run(s: Seq<u8>, k: int)
    requires
        0 <= k <= s.len(),
        forall|j: int| 0 <= j < k ==> is_digit(#[trigger] s[j]),
        k == s.len() || !is_digit(s[k]),
    ensures
        digit_run(s) == k,
    decreases k,
{
    if k > 0 {
        let rest = s.drop_first();
        assert forall|j: int| 0 <= j < k - 1 implies is_digit(#[trigger] rest[j]) by {
            assert(rest[j] == s[j + 1]);
        }
        lemma_digit_run(rest, k - 1);
    }
}

/// A run that starts with `k` digits is at least `k` long.
pub proof fn lemma_digit_run_least(s: Seq<u8>, k: int)
    requires
        0 <= k <= s.len(),
        forall|j: int| 0 <= j < k ==> is_digit(#[trigger] s[j]),
    ensures
        digit_run(s) >= k,
    decreases k,
{
    if k > 0 {
        let rest = s.drop_first();
        assert forall|j: int| 0 <= j < k - 1 implies is_digit(#[trigger] rest[j]) by {
            assert(rest[j] == s[j + 1]);
        }
        lemma_digit_run_least(rest, k - 1);
    }
}

/// The digits of a number are digits, at least one, and spell the number.
pub proof fn lemma_digits(n: nat)
    ensures
        digits(n).len() >= 1,
        forall|j: int| 0 <= j < digits(n).len() ==> is_digit(#[trigger] digits(n)[j]),
        digits_value(digits(n)) == n,
        n < pow10(digits(n).len()),
        n > 0 ==> n >= pow10((digits(n).len() - 1) as nat),
    decreases n,
{
    if n >= 10 {
        lemma_digits(n / 10);
        let head = digits(n / 10);
        assert(digits(n).drop_last() =~= head);
        assert forall|j: int| 0 <= j < digits(n).len() implies is_digit(#[trigger] digits(n)[j]) by {
            if j < head.len() {
                assert(digits(n)[j] == head[j]);
            }
        }
    } else {
        assert(digits(n).drop_last() =~= Seq::<u8>::empty());
        assert(digits_value(Seq::<u8>::empty()) == 0);
        reveal_with_fuel(pow10, 2);
    }
}

/// Larger powers of ten are larger.
pub proof fn lemma_pow10_grows(a: nat, b: nat)
    requires
        a <= b,
    ensures
        pow10(a) <= pow10(b),
        pow10(a) >= 1,
    decreases b,
{
    if a < b {
        lemma_pow10_grows(a, (b - 1) as nat);
    } else if a > 0 {
        lemma_pow10_grows((a - 1) as nat, (a - 1) as nat);
    }
}

/// A number below ten to the tenth has at most ten digits.
pub proof fn lemma_digits_short(n: nat)
    requires
        n < 10_000_000_000,
    ensures
        digits(n).len() <= 10,
{
    lemma_digits(n);
    if digits(n).len() > 10 {
        lemma_pow10_grows(10, (digits(n).len() - 1) as nat);
        assert(pow10(10) == 10_000_000_000) by {
            reveal_with_fuel(pow10, 11);
        }
    }
}

/// Reading a written number gives the number and what follows it, where
/// what follows does not go on with a digit.
pub proof fn lemma_number_roundtrip(n: int, rest: Seq<u8>)
    requires
        -10_000_000_000 < n < 10_000_000_000,
        rest.len() == 0 || !is_digit(rest[0]),
    ensures
        parse_number(number(n) + rest) == Some((n, rest)),
{
    let s = number(n) + rest;
    let magnitude: nat = if n < 0 {
        (-n) as nat
    } else {
        n as nat
    };
    let run = digits(magnitude);
    lemma_digits(magnitude);
    lemma_digits_short(magnitude);
    let body = if n < 0 {
        s.skip(1)
    } else {
        s
    };
    assert(body =~= run + rest);
    assert(s[0] == 45 <==> n < 0) by {
        if n >= 0 {
            assert(s[0] == run[0]);
        }
    }
    assert forall|j: int| 0 <= j < run.len() implies is_digit(#[trigger] body[j]) by {
        assert(body[j] == run[j]);
    }
    lemma_digit_run(body, run.len() as int);
    assert(body.take(run.len() as int) =~= run);
    assert(body.skip(run.len() as int) =~= rest);
}

/// Appends a natural number in decimal.
pub fn put_digits(out: &mut Vec<u8>, n: u64)
    ensures
        final(out)@ == old(out)@ + digits(n as nat),
    decreases n,
{
    if n < 10 {
        out.push(48 + n as u8);
        assert(out@ =~= old(out)@ + digits(n as nat));
    } else {
        put_digits(out, n / 10);
        out.push(48 + (n % 10) as u8);
        assert(out@ =~= old(out)@ + digits(n as nat));
    }
}

/// Appends an integer in decimal.
pub fn put_number(out: &mut Vec<u8>, n: i64)
    ensures
        final(out)@ == old(out)@ + number(n as int),
{
    if n < 0 {
        let magnitude: u64 = if n == i64::MIN {
            9223372036854775808u64
        } else {
            (-n) as u64
        };
        out.push(45);
        put_digits(out, magnitude);
        assert(out@ =~= old(out)@ + number(n as int));
    } else {
        put_digits(out, n as u64);
    }
}

/// Reads an integer at `pos`.
pub(crate) fn take_number(bytes: &Vec<u8>, pos: usize) -> (r: Option<(i64, usize)>)
    requires
        pos <= bytes.len(),
    ensures
        match r {
            Some((n, next)) => pos < next <= bytes.len() && parse_number(bytes@.skip(pos as int)) == Some(
                (n as int, bytes@.skip(next as int)),
            ),
            None => parse_number(bytes@.skip(pos as int)) is None,
        },
{
    let ghost s = bytes@.skip(pos as int);
    let negative = pos < bytes.len() && bytes[pos] == 45;
    let start: usize = if negative {
        pos + 1
    } else {
        pos
    };
    let ghost body = bytes@.skip(start as int);
    assert(body =~= if negative {
        s.skip(1)
    } else {
        s
    });
    assert(negative == (s.len() > 0 && s[0] == 45));
    let mut i: usize = start;
    let mut value: u64 = 0;
    assert(body.take(0) =~= Seq::<u8>::empty());
    while i < bytes.len() && bytes[i] >= 48 && bytes[i] <= 57
        invariant
            start <= i <= bytes.len(),
            i - start <= 10,
            body == bytes@.skip(start as int),
            s == bytes@.skip(pos as int),
            negative == (s.len() > 0 && s[0] == 45),
            body == if negative {
                s.skip(1)
            } else {
                s
            },
            forall|j: int| 0 <= j < i - start ==> is_digit(#[trigger] body[j]),
            value == digits_value(body.take(i - start)),
            value < pow10((i - start) as nat),
        decreases bytes.len() - i,
    {
        if i - start == 10 {
            proof {
                assert(body[i - start] == bytes@[i as int]);
                assert(is_digit(body[i - start]));
                lemma_digit_run_least(body, i - start + 1);
            }
            return None;
        }
        proof {
            lemma_pow10_grows((i - start) as nat, 10);
            assert(pow10(10) == 10_000_000_000) by {
                reveal_with_fuel(pow10, 11);
            }
            let now = body.take(i - start + 1);
            assert(now.drop_last() =~= body.take(i - start));
            assert(now.last() == bytes@[i as int]);
        }
        value = value * 10 + (bytes[i] - 48) as u64;
        i += 1;
    }
    proof {
        lemma_digit_run(body, i - start);
        lemma_pow10_grows((i - start) as nat, 10);
        assert(pow10(10) == 10_000_000_000) by {
            reveal_with_fuel(pow10, 11);
        }
        assert(body.skip(i - start) =~= bytes@.skip(i as int));
    }
    if i == start {
        return None;
    }
    let n: i64 = if negative {
        -(value as i64)
    } else {
        value as i64
    };
    Some((n, i))
}

/// A byte of a string as it stands between the quotes: a quote, a
/// backslash and the control characters are escaped, the short way where
/// there is one.
pub open spec fn escaped(b: u8) -> Seq<u8> {
    if b == 34 {
        seq![92u8, 34u8]
    } else if b == 92 {
        seq![92u8, 92u8]
    } else if b == 8 {
        seq![92u8, 98u8]
    } else if b == 12 {
        seq![92u8, 102u8]
    } else if b == 10 {
        seq![92u8, 110u8]
    } else if b == 13 {
        seq![92u8, 114u8]
    } else if b == 9 {
        seq![92u8, 116u8]
    } else if b < 32 {
        seq![92u8, 117u8, 48u8, 48u8, hex_low((b / 16) as nat), hex_low((b % 16) as nat)]
    } else {
        seq![b]
    }
}

/// A hexadecimal digit in lower case.
pub open spec fn hex_low(d: nat) -> u8
    recommends
        d < 16,
{
    if d < 10 {
        (48 + d) as u8
    } else {
        (87 + d) as u8
    }
}

/// The value of a hexadecimal digit in lower case.
pub open spec fn hex_value(b: u8) -> Option<nat> {
    if 48 <= b <= 57 {
        Some((b - 48) as nat)
    } else if 97 <= b <= 102 {
        Some((b - 87) as nat)
    } else {
        None
    }
}

/// The bytes of a string as they stand between the quotes.
pub open spec fn escape_all(bytes: Seq<u8>) -> Seq<u8>
    decreases bytes.len(),
{
    if bytes.len() == 0 {
        Seq::empty()
    } else {
        escaped(bytes[0]) + escape_all(bytes.drop_first())
    }
}

/// A JSON string.
pub open spec fn string(chars: Seq<char>) -> Seq<u8> {
    seq![34u8] + escape_all(encode_utf8(chars)) + seq![34u8]
}

/// The byte that an escape stands for, and how long the escape is behind
/// its backslash.
pub open spec fn unescape(t: Seq<u8>) -> Option<(u8, nat)> {
    if t.len() == 0 {
        None
    } else if t[0] == 34 {
        Some((34u8, 1nat))
    } else if t[0] == 92 {
        Some((92u8, 1nat))
    } else if t[0] == 98 {
        Some((8u8, 1nat))
    } else if t[0] == 102 {
        Some((12u8, 1nat))
    } else if t[0] == 110 {
        Some((10u8, 1nat))
    } else if t[0] == 114 {
        Some((13u8, 1nat))
    } else if t[0] == 116 {
        Some((9u8, 1nat))
    } else if t[0] == 117 && t.len() >= 5 && t[1] == 48 && t[2] == 48 && hex_value(t[3]) is Some && hex_value(
        t[4],
    ) is Some {
        Some(((16 * hex_value(t[3]).unwrap() + hex_value(t[4]).unwrap()) as u8, 5nat))
    } else {
        None
    }
}

/// Reads the bytes of a string up to its closing quote, behind those in
/// `acc`, and gives what follows the quote.
pub open spec fn parse_raw(s: Seq<u8>, acc: Seq<u8>) -> Option<(Seq<u8>, Seq<u8>)>
    decreases s.len(),
{
    if s.len() == 0 {
        None
    } else if s[0] == 34 {
        Some((acc, s.skip(1)))
    } else if s[0] == 92 {
        match unescape(s.skip(1)) {
            Some((b, used)) => parse_raw(s.skip(1 + used as int), acc.push(b)),
            None => None,
        }
    } else {
        parse_raw(s.skip(1), acc.push(s[0]))
    }
}

/// Reads a JSON string and gives what follows it.
pub open spec fn parse_string(s: Seq<u8>) -> Option<(Seq<char>, Seq<u8>)> {
    if s.len() == 0 || s[0] != 34 {
        None
    } else {
        match parse_raw(s.skip(1), Seq::empty()) {
            Some((raw, rest)) => if valid_utf8(raw) {
                Some((decode_utf8(raw), rest))
            } else {
                None
            },
            None => None,
        }
    }
}

/// Escaping one more byte appends its escape.
pub proof fn lemma_escape_push(bytes: Seq<u8>, b: u8)
    ensures
        escape_all(bytes.push(b)) == escape_all(bytes) + escaped(b),
    decreases bytes.len(),
{
    if bytes.len() == 0 {
        assert(bytes.push(b).drop_first() =~= Seq::<u8>::empty());
        assert(escape_all(bytes.push(b)) =~= escaped(b) + escape_all(Seq::<u8>::empty()));
        assert(escape_all(bytes.push(b)) =~= escape_all(bytes) + escaped(b));
    } else {
        lemma_escape_push(bytes.drop_first(), b);
        assert(bytes.push(b).drop_first() =~= bytes.drop_first().push(b));
        assert(escape_all(bytes.push(b)) =~= escape_all(bytes) + escaped(b));
    }
}

/// Reading escaped bytes up to the closing quote gives the bytes back.
pub proof fn lemma_raw_roundtrip(bytes: Seq<u8>, rest: Seq<u8>, acc: Seq<u8>)
    ensures
        parse_raw(escape_all(bytes) + seq![34u8] + rest, acc) == Some((acc + bytes, rest)),
    decreases bytes.len(),
{
    let s = escape_all(bytes) + seq![34u8] + rest;
    if bytes.len() == 0 {
        assert(s =~= seq![34u8] + rest);
        assert(s.skip(1) =~= rest);
        assert(acc + bytes =~= acc);
    } else {
        let b = bytes[0];
        let more = bytes.drop_first();
        let then = escape_all(more) + seq![34u8] + rest;
        let e = escaped(b);
        assert(s =~= e + then);
        lemma_raw_roundtrip(more, rest, acc.push(b));
        assert(acc.push(b) + more =~= acc + bytes);
        assert(s.skip(e.len() as int) =~= then);
        if b == 34 || b == 92 || b == 8 || b == 12 || b == 10 || b == 13 || b == 9 {
            assert(s[0] == 92);
            assert(s.skip(1)[0] == e[1]);
            assert(s.skip(2) =~= then);
        } else if b < 32 {
            let t = s.skip(1);
            assert(s[0] == 92);
            assert(t[0] == 117 && t[1] == 48 && t[2] == 48);
            assert(t[3] == hex_low((b / 16) as nat));
            assert(t[4] == hex_low((b % 16) as nat));
            assert(hex_value(t[3]) == Some((b / 16) as nat));
            assert(hex_value(t[4]) == Some((b % 16) as nat));
            assert(s.skip(6) =~= then);
        } else {
            assert(s[0] == b);
            assert(s.skip(1) =~= then);
        }
    }
}

/// Reading a written string gives the string and what follows it.
pub proof fn lemma_string_roundtrip(chars: Seq<char>, rest: Seq<u8>)
    ensures
        parse_string(string(chars) + rest) == Some((chars, rest)),
{
    let s = string(chars) + rest;
    let raw = encode_utf8(chars);
    assert(s.skip(1) =~= escape_all(raw) + seq![34u8] + rest);
    lemma_raw_roundtrip(raw, rest, Seq::empty());
    assert(Seq::<u8>::empty() + raw =~= raw);
    vstd::utf8::encode_utf8_valid_utf8(chars);
    vstd::utf8::encode_utf8_decode_utf8(chars);
}

/// The text that bytes spell, from `String::from_utf8`: `None` exactly when
/// the bytes are not UTF-8, and else the string that has these bytes.
#[verifier::external_body]
pub(crate) fn text_of(bytes: Vec<u8>) -> (r: Option<String>)
    ensures
        match r {
            Some(s) => encode_utf8(s@) == bytes@,
            None => !valid_utf8(bytes@),
        },
{
    String::from_utf8(bytes).ok()
}

/// Appends a lower-case hexadecimal digit.
fn put_hex_low(out: &mut Vec<u8>, d: u8)
    requires
        d < 16,
    ensures
        final(out)@ == old(out)@.push(hex_low(d as nat)),
{
    if d < 10 {
        out.push(48 + d);
    } else {
        out.push(87 + d);
    }
}

/// Appends a byte of a string as it stands between the quotes.
fn put_escaped(out: &mut Vec<u8>, b: u8)
    ensures
        final(out)@ == old(out)@ + escaped(b),
{
    if b == 34 {
        out.push(92);
        out.push(34);
    } else if b == 92 {
        out.push(92);
        out.push(92);
    } else if b == 8 {
        out.push(92);
        out.push(98);
    } else if b == 12 {
        out.push(92);
        out.push(102);
    } else if b == 10 {
        out.push(92);
        out.push(110);
    } else if b == 13 {
        out.push(92);
        out.push(114);
    } else if b == 9 {
        out.push(92);
        out.push(116);
    } else if b < 32 {
        out.push(92);
        out.push(117);
        out.push(48);
        out.push(48);
        put_hex_low(out, b / 16);
        put_hex_low(out, b % 16);
    } else {
        out.push(b);
    }
    assert(out@ =~= old(out)@ + escaped(b));
}

/// Appends a JSON string.
pub fn put_string(out: &mut Vec<u8>, value: &str)
    ensures
        final(out)@ == old(out)@ + string(value@),
{
    let bytes = value.as_bytes();
    out.push(34);
    let mut i: usize = 0;
    assert(bytes@.take(0) =~= Seq::<u8>::empty());
    assert(out@ =~= old(out)@ + seq![34u8] + escape_all(bytes@.take(0)));
    while i < bytes.len()
        invariant
            i <= bytes.len(),
            out@ == old(out)@ + seq![34u8] + escape_all(bytes@.take(i as int)),
        decreases bytes.len() - i,
    {
        let ghost before = out@;
        put_escaped(out, bytes[i]);
        proof {
            lemma_escape_push(bytes@.take(i as int), bytes@[i as int]);
            assert(bytes@.take(i as int + 1) =~= bytes@.take(i as int).push(bytes@[i as int]));
            assert(out@ =~= old(out)@ + seq![34u8] + escape_all(bytes@.take(i as int + 1)));
        }
        i += 1;
    }
    assert(bytes@.take(bytes.len() as int) =~= bytes@);
    out.push(34);
    assert(out@ =~= old(out)@ + string(value@));
}

/// The value of a lower-case hexadecimal digit.
fn hex_digit(b: u8) -> (r: Option<u8>)
    ensures
        match r {
            Some(d) => hex_value(b) == Some(d as nat) && d < 16,
            None => hex_value(b) is None,
        },
{
    if 48 <= b && b <= 57 {
        Some(b - 48)
    } else if 97 <= b && b <= 102 {
        Some(b - 87)
    } else {
        None
    }
}

/// Reads an escape behind its backslash.
fn take_escape(bytes: &Vec<u8>, pos: usize) -> (r: Option<(u8, usize)>)
    requires
        pos <= bytes.len(),
    ensures
        match r {
            Some((b, used)) => unescape(bytes@.skip(pos as int)) == Some((b, used as nat)) && 1 <= used
                <= bytes.len() - pos,
            None => unescape(bytes@.skip(pos as int)) is None,
        },
{
    let ghost t = bytes@.skip(pos as int);
    if pos >= bytes.len() {
        return None;
    }
    let c = bytes[pos];
    assert(t[0] == c);
    if c == 34 {
        Some((34, 1))
    } else if c == 92 {
        Some((92, 1))
    } else if c == 98 {
        Some((8, 1))
    } else if c == 102 {
        Some((12, 1))
    } else if c == 110 {
        Some((10, 1))
    } else if c == 114 {
        Some((13, 1))
    } else if c == 116 {
        Some((9, 1))
    } else if c == 117 && bytes.len() - pos >= 5 {
        assert(t[1] == bytes@[pos + 1] && t[2] == bytes@[pos + 2] && t[3] == bytes@[pos + 3] && t[4]
            == bytes@[pos + 4]);
        if bytes[pos + 1] == 48 && bytes[pos + 2] == 48 {
            match (hex_digit(bytes[pos + 3]), hex_digit(bytes[pos + 4])) {
                (Some(high), Some(low)) => Some((16 * high + low, 5)),
                _ => None,
            }
        } else {
            None
        }
    } else {
        None
    }
}

/// Reads a JSON string at `pos`.
pub(crate) fn take_string(bytes: &Vec<u8>, pos: usize) -> (r: Option<(String, usize)>)
    requires
        pos <= bytes.len(),
    ensures
        match r {
            Some((value, next)) => pos < next <= bytes.len() && parse_string(bytes@.skip(pos as int)) == Some(
                (value@, bytes@.skip(next as int)),
            ),
            None => parse_string(bytes@.skip(pos as int)) is None,
        },
{
    let ghost s = bytes@.skip(pos as int);
    if pos >= bytes.len() || bytes[pos] != 34 {
        return None;
    }
    let mut raw: Vec<u8> = Vec::new();
    let mut i: usize = pos + 1;
    let ghost goal = parse_raw(s.skip(1), Seq::empty());
    assert(s.skip(1) =~= bytes@.skip(i as int));
    assert(raw@ =~= Seq::<u8>::empty());
    let mut end: Option<usize> = None;
    while i < bytes.len()
        invariant_except_break
            end is None,
            goal == parse_raw(bytes@.skip(i as int), raw@),
        invariant
            pos < i <= bytes.len(),
        ensures
            pos < i <= bytes.len(),
            match end {
                Some(next) => pos < next <= bytes.len() && goal == Some((raw@, bytes@.skip(next as int))),
                None => goal is None,
            },
        decreases bytes.len() - i,
    {
        let ghost here = bytes@.skip(i as int);
        let c = bytes[i];
        assert(here[0] == c);
        if c == 34 {
            assert(here.skip(1) =~= bytes@.skip(i + 1));
            end = Some(i + 1);
            break ;
        } else if c == 92 {
            assert(here.skip(1) =~= bytes@.skip(i + 1));
            match take_escape(bytes, i + 1) {
                Some((b, used)) => {
                    assert(here.skip(1 + used) =~= bytes@.skip(i + 1 + used));
                    raw.push(b);
                    i = i + 1 + used;
                },
                None => {
                    break ;
                },
            }
        } else {
            assert(here.skip(1) =~= bytes@.skip(i + 1));
            raw.push(c);
            i += 1;
        }
    }
    match end {
        Some(next) => {
            let ghost collected = raw@;
            match text_of(raw) {
                Some(value) => {
                    proof {
                        vstd::utf8::encode_utf8_valid_utf8(value@);
                        vstd::utf8::encode_utf8_decode_utf8(value@);
                    }
                    Some((value, next))
                },
                None => None,
            }
        },
        None => None,
    }
}

/// The items of a byte array behind its first: each with a comma before it.
pub open spec fn tail_items(data: Seq<u8>) -> Seq<u8>
    decreases data.len(),
{
    if data.len() == 0 {
        Seq::empty()
    } else {
        seq![44u8] + number(data[0] as int) + tail_items(data.drop_first())
    }
}

/// A byte string as a JSON array of numbers.
pub open spec fn byte_array(data: Seq<u8>) -> Seq<u8> {
    if data.len() == 0 {
        seq![91u8, 93u8]
    } else {
        seq![91u8] + number(data[0] as int) + tail_items(data.drop_first()) + seq![93u8]
    }
}

/// An optional byte string: `null`, or the array.
pub open spec fn payload(data: Option<Seq<u8>>) -> Seq<u8> {
    match data {
        None => text("null"@),
        Some(bytes) => byte_array(bytes),
    }
}

/// Reads a number that is a byte.
pub open spec fn parse_byte(s: Seq<u8>) -> Option<(u8, Seq<u8>)> {
    match parse_number(s) {
        Some((n, rest)) => if 0 <= n <= 255 && rest.len() < s.len() {
            Some((n as u8, rest))
        } else {
            None
        },
        None => None,
    }
}

/// Reads the items of a byte array behind those in `acc`, up to the closing
/// bracket.
pub open spec fn parse_tail_items(s: Seq<u8>, acc: Seq<u8>) -> Option<(Seq<u8>, Seq<u8>)>
    decreases s.len(),
{
    if s.len() > 0 && s[0] == 44 {
        match parse_byte(s.skip(1)) {
            Some((b, rest)) => parse_tail_items(rest, acc.push(b)),
            None => None,
        }
    } else if s.len() > 0 && s[0] == 93 {
        Some((acc, s.skip(1)))
    } else {
        None
    }
}

/// Reads a JSON array of bytes.
pub open spec fn parse_byte_array(s: Seq<u8>) -> Option<(Seq<u8>, Seq<u8>)> {
    if s.len() >= 2 && s[0] == 91 && s[1] == 93 {
        Some((Seq::empty(), s.skip(2)))
    } else if s.len() > 0 && s[0] == 91 {
        match parse_byte(s.skip(1)) {
            Some((b, rest)) => parse_tail_items(rest, seq![b]),
            None => None,
        }
    } else {
        None
    }
}

/// Reads an optional byte string.
pub open spec fn parse_payload(s: Seq<u8>) -> Option<(Option<Seq<u8>>, Seq<u8>)> {
    match after(s, text("null"@)) {
        Some(rest) => Some((None, rest)),
        None => match parse_byte_array(s) {
            Some((data, rest)) => Some((Some(data), rest)),
            None => None,
        },
    }
}

/// One more item appends a comma and its number.
pub proof fn lemma_tail_items_push(data: Seq<u8>, b: u8)
    ensures
        tail_items(data.push(b)) == tail_items(data) + seq![44u8] + number(b as int),
    decreases data.len(),
{
    if data.len() == 0 {
        assert(data.push(b).drop_first() =~= Seq::<u8>::empty());
        assert(tail_items(data.push(b)) =~= seq![44u8] + number(b as int) + tail_items(Seq::<u8>::empty()));
        assert(tail_items(data.push(b)) =~= tail_items(data) + seq![44u8] + number(b as int));
    } else {
        lemma_tail_items_push(data.drop_first(), b);
        assert(data.push(b).drop_first() =~= data.drop_first().push(b));
        assert(tail_items(data.push(b)) =~= tail_items(data) + seq![44u8] + number(b as int));
    }
}

/// A written number is not empty, and starts with a digit or a minus sign.
pub proof fn lemma_number_first(n: int)
    ensures
        number(n).len() >= 1,
        is_digit(number(n)[0]) || number(n)[0] == 45,
{
    if n >= 0 {
        lemma_digits(n as nat);
    }
}

/// Reading a written byte gives the byte and what follows it, where what
/// follows does not go on with a digit.
pub proof fn lemma_byte_roundtrip(b: u8, rest: Seq<u8>)
    requires
        rest.len() == 0 || !is_digit(rest[0]),
    ensures
        parse_byte(number(b as int) + rest) == Some((b, rest)),
{
    lemma_number_roundtrip(b as int, rest);
    lemma_number_first(b as int);
}

/// Reading written items up to the closing bracket gives the items back.
pub proof fn lemma_tail_items_roundtrip(data: Seq<u8>, rest: Seq<u8>, acc: Seq<u8>)
    ensures
        parse_tail_items(tail_items(data) + seq![93u8] + rest, acc) == Some((acc + data, rest)),
    decreases data.len(),
{
    let s = tail_items(data) + seq![93u8] + rest;
    if data.len() == 0 {
        assert(s =~= seq![93u8] + rest);
        assert(s.skip(1) =~= rest);
        assert(acc + data =~= acc);
    } else {
        let more = data.drop_first();
        let then = tail_items(more) + seq![93u8] + rest;
        assert(s =~= seq![44u8] + (number(data[0] as int) + then));
        assert(s.skip(1) =~= number(data[0] as int) + then);
        assert(then[0] == 44 || then[0] == 93) by {
            if more.len() > 0 {
                assert(tail_items(more)[0] == 44);
            }
        }
        lemma_byte_roundtrip(data[0], then);
        lemma_tail_items_roundtrip(more, rest, acc.push(data[0]));
        assert(acc.push(data[0]) + more =~= acc + data);
    }
}

/// Reading a written array gives the bytes and what follows it.
pub proof fn lemma_byte_array_roundtrip(data: Seq<u8>, rest: Seq<u8>)
    ensures
        parse_byte_array(byte_array(data) + rest) == Some((data, rest)),
{
    let s = byte_array(data) + rest;
    if data.len() == 0 {
        assert(s.skip(2) =~= rest);
        assert(data =~= Seq::<u8>::empty());
    } else {
        let more = data.drop_first();
        let then = tail_items(more) + seq![93u8] + rest;
        assert(s =~= seq![91u8] + (number(data[0] as int) + then));
        assert(s.skip(1) =~= number(data[0] as int) + then);
        lemma_number_first(data[0] as int);
        assert(s[1] == number(data[0] as int)[0]);
        assert(then[0] == 44 || then[0] == 93) by {
            if more.len() > 0 {
                assert(tail_items(more)[0] == 44);
            }
        }
        lemma_byte_roundtrip(data[0], then);
        lemma_tail_items_roundtrip(more, rest, seq![data[0]]);
        assert(seq![data[0]] + more =~= data);
    }
}

/// The bytes of `null`.
pub proof fn lemma_null_text()
    ensures
        text("null"@) == seq![110u8, 117u8, 108u8, 108u8],
{
    reveal_strlit("null");
    vstd::utf8::is_ascii_chars_encode_utf8("null"@);
    assert(text("null"@) =~= seq![110u8, 117u8, 108u8, 108u8]);
}

/// Reading a written payload gives the payload and what follows it.
pub proof fn lemma_payload_roundtrip(data: Option<Seq<u8>>, rest: Seq<u8>)
    ensures
        parse_payload(payload(data) + rest) == Some((data, rest)),
{
    lemma_null_text();
    match data {
        None => {
            lemma_after(text("null"@), rest);
        },
        Some(bytes) => {
            lemma_byte_array_roundtrip(bytes, rest);
            let s = byte_array(bytes) + rest;
            assert(s[0] == 91);
            if starts_with(s, text("null"@)) {
                assert(s.take(4)[0] == s[0]);
            }
        },
    }
}

/// Appends a byte string as a JSON array of numbers.
pub fn put_byte_array(out: &mut Vec<u8>, data: &Vec<u8>)
    ensures
        final(out)@ == old(out)@ + byte_array(data@),
{
    out.push(91);
    if data.len() > 0 {
        put_number(out, data[0] as i64);
        let mut i: usize = 1;
        let ghost more = data@.drop_first();
        assert(more.take(0) =~= Seq::<u8>::empty());
        assert(out@ =~= old(out)@ + seq![91u8] + number(data@[0] as int) + tail_items(more.take(0)));
        while i < data.len()
            invariant
                1 <= i <= data.len(),
                more == data@.drop_first(),
                out@ == old(out)@ + seq![91u8] + number(data@[0] as int) + tail_items(more.take(i - 1)),
            decreases data.len() - i,
        {
            out.push(44);
            put_number(out, data[i] as i64);
            proof {
                lemma_tail_items_push(more.take(i - 1), data@[i as int]);
                assert(more.take(i as int) =~= more.take(i - 1).push(data@[i as int]));
                assert(out@ =~= old(out)@ + seq![91u8] + number(data@[0] as int) + tail_items(
                    more.take(i as int),
                ));
            }
            i += 1;
        }
        assert(more.take(data.len() - 1) =~= more);
    }
    out.push(93);
    assert(out@ =~= old(out)@ + byte_array(data@));
}

/// Appends an optional byte string.
pub fn put_payload(out: &mut Vec<u8>, data: &Option<Vec<u8>>)
    ensures
        final(out)@ == old(out)@ + payload(crate::models::utils::text::payload_view(*data)),
{
    match data {
        Some(bytes) => put_byte_array(out, bytes),
        None => put_text(out, "null"),
    }
}

/// Reads a number that is a byte at `pos`.
fn take_byte(bytes: &Vec<u8>, pos: usize) -> (r: Option<(u8, usize)>)
    requires
        pos <= bytes.len(),
    ensures
        match r {
            Some((b, next)) => pos < next <= bytes.len() && parse_byte(bytes@.skip(pos as int)) == Some(
                (b, bytes@.skip(next as int)),
            ),
            None => parse_byte(bytes@.skip(pos as int)) is None,
        },
{
    match take_number(bytes, pos) {
        Some((n, next)) => {
            if 0 <= n && n <= 255 {
                Some((n as u8, next))
            } else {
                None
            }
        },
        None => None,
    }
}

/// Reads a JSON array of bytes at `pos`.
pub(crate) fn take_byte_array(bytes: &Vec<u8>, pos: usize) -> (r: Option<(Vec<u8>, usize)>)
    requires
        pos <= bytes.len(),
    ensures
        match r {
            Some((data, next)) => pos < next <= bytes.len() && parse_byte_array(bytes@.skip(pos as int))
                == Some((data@, bytes@.skip(next as int))),
            None => parse_byte_array(bytes@.skip(pos as int)) is None,
        },
{
    let ghost s = bytes@.skip(pos as int);
    if pos >= bytes.len() || bytes[pos] != 91 {
        return None;
    }
    assert(s[0] == 91);
    let mut data: Vec<u8> = Vec::new();
    if pos + 1 < bytes.len() && bytes[pos + 1] == 93 {
        assert(s[1] == 93);
        assert(s.skip(2) =~= bytes@.skip(pos + 2));
        assert(data@ =~= Seq::<u8>::empty());
        return Some((data, pos + 2));
    }
    assert(!(s.len() >= 2 && s[1] == 93)) by {
        if s.len() >= 2 {
            assert(s[1] == bytes@[pos + 1]);
        }
    }
    assert(s.skip(1) =~= bytes@.skip(pos + 1));
    let mut i: usize;
    match take_byte(bytes, pos + 1) {
        Some((b, next)) => {
            data.push(b);
            i = next;
        },
        None => {
            return None;
        },
    }
    let ghost goal = parse_byte_array(s);
    assert(data@ =~= seq![data@[0]]);
    let mut end: Option<usize> = None;
    while i < bytes.len()
        invariant_except_break
            end is None,
            goal == parse_tail_items(bytes@.skip(i as int), data@),
        invariant
            pos < i <= bytes.len(),
        ensures
            match end {
                Some(next) => pos < next <= bytes.len() && goal == Some((data@, bytes@.skip(next as int))),
                None => goal is None,
            },
        decreases bytes.len() - i,
    {
        let ghost here = bytes@.skip(i as int);
        let c = bytes[i];
        assert(here[0] == c);
        assert(here.skip(1) =~= bytes@.skip(i + 1));
        if c == 44 {
            match take_byte(bytes, i + 1) {
                Some((b, next)) => {
                    data.push(b);
                    i = next;
                },
                None => {
                    break ;
                },
            }
        } else if c == 93 {
            end = Some(i + 1);
            break ;
        } else {
            break ;
        }
    }
    match end {
        Some(next) => Some((data, next)),
        None => None,
    }
}

/// Reads an optional byte string at `pos`.
pub(crate) fn take_payload(bytes: &Vec<u8>, pos: usize) -> (r: Option<(Option<Vec<u8>>, usize)>)
    requires
        pos <= bytes.len(),
    ensures
        match r {
            Some((data, next)) => pos <= next <= bytes.len() && parse_payload(bytes@.skip(pos as int)) == Some(
                (crate::models::utils::text::payload_view(data), bytes@.skip(next as int)),
            ),
            None => parse_payload(bytes@.skip(pos as int)) is None,
        },
{
    match take_text(bytes, pos, "null") {
        Some(next) => Some((None, next)),
        None => match take_byte_array(bytes, pos) {
            Some((data, next)) => Some((Some(data), next)),
            None => None,
        },
    }
}

} // verus!
