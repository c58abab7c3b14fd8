//! Text helpers shared by the rest of the crate.
//!
//! Strings are modelled by their view, a `Seq<char>`. Everything here is
//! stated over that view.

use vstd::prelude::*;
use vstd::string::StringSliceAdditionalSpecFns;

verus! {

/// Two texts have the same UTF-8 encoding exactly when they are the same
/// text.
pub proof fn lemma_encoding_injective(a: Seq<char>, b: Seq<char>)
    ensures
        (vstd::utf8::encode_utf8(a) == vstd::utf8::encode_utf8(b)) <==> a == b,
{
    vstd::utf8::encode_utf8_decode_utf8(a);
    vstd::utf8::encode_utf8_decode_utf8(b);
}

/// Whether two string slices hold the same text.
pub fn str_eq(a: &str, b: &str) -> (same: bool)
    ensures
        same == (a@ == b@),
{
    let x = a.as_bytes();
    let y = b.as_bytes();
    proof {
        lemma_encoding_injective(a@, b@);
    }
    if x.len() != y.len() {
        return false;
    }
    let mut i: usize = 0;
    while i < x.len()
        invariant
            i <= x.len(),
            x.len() == y.len(),
            forall|k: int| 0 <= k < i ==> x@[k] == y@[k],
            (x@ == y@) <==> (a@ == b@),
        decreases x.len() - i,
    {
        if x[i] != y[i] {
            return false;
        }
        i += 1;
    }
    assert(x@ =~= y@);
    true
}

/// The characters of a string slice, in order.
pub fn str_chars(s: &str) -> (out: Vec<char>)
    ensures
        out@ == s@,
{
    let mut out: Vec<char> = Vec::new();
    for c in it: s.chars()
        invariant
            it.seq() == s@,
            out@ == it.seq().take(it.index()),
    {
        out.push(c);
    }
    out
}

/// The view of an optional string: the view of the string inside, if any.
pub open spec fn opt_text(s: Option<String>) -> Option<Seq<char>> {
    match s {
        Some(t) => Some(t@),
        None => None,
    }
}

/// The text `a` followed by the text `b`.
pub fn joined(a: &str, b: &str) -> (out: String)
    ensures
        out@ == a@ + b@,
{
    let mut out = a.to_owned();
    out.append(b);
    out
}

/// Whether `c` is one of the digits `0` to `9`.
pub open spec fn is_digit(c: char) -> bool {
    '0' <= c && c <= '9'
}

/// The number a digit stands for.
pub open spec fn digit_value(c: char) -> int {
    c as int - '0' as int
}

/// Whether `s` consists of digits only.
pub open spec fn all_digits(s: Seq<char>) -> bool {
    forall|i: int| 0 <= i < s.len() ==> is_digit(#[trigger] s[i])
}

/// The number that a sequence of digits denotes in base ten.
pub open spec fn decimal_value(s: Seq<char>) -> int
    decreases s.len(),
{
    if s.len() == 0 {
        0
    } else {
        decimal_value(s.drop_last()) * 10 + digit_value(s.last())
    }
}

/// The digits of a number text: the text without one leading `+`.
pub open spec fn unsigned_digits(s: Seq<char>) -> Seq<char> {
    if s.len() > 0 && s[0] == '+' {
        s.drop_first()
    } else {
        s
    }
}

/// The `u64` that `s` denotes: an optional `+`, then at least one decimal
/// digit, with a value that fits. `None` for every other text.
pub open spec fn parsed_u64(s: Seq<char>) -> Option<u64> {
    let digits = unsigned_digits(s);
    if digits.len() > 0 && all_digits(digits) && decimal_value(digits) <= u64::MAX {
        Some(decimal_value(digits) as u64)
    } else {
        None
    }
}

/// The platform id that `s` denotes: a `u64` other than zero.
pub open spec fn parsed_id(s: Seq<char>) -> Option<u64> {
    match parsed_u64(s) {
        Some(n) => if n == 0 {
            None
        } else {
            Some(n)
        },
        None => None,
    }
}

/// A decimal value never decreases when digits are appended.
pub proof fn lemma_decimal_value_grows(s: Seq<char>, n: int)
    requires
        all_digits(s),
        0 <= n <= s.len(),
    ensures
        0 <= decimal_value(s.take(n)) <= decimal_value(s),
    decreases s.len() - n,
{
    if n == s.len() {
        assert(s.take(n) =~= s);
        lemma_decimal_value_nonnegative(s);
    } else {
        lemma_decimal_value_grows(s, n + 1);
        assert(s.take(n + 1).drop_last() =~= s.take(n));
        assert(is_digit(s[n]));
        lemma_decimal_value_nonnegative(s.take(n));
    }
}

/// The value of a sequence of digits is not negative.
pub proof fn lemma_decimal_value_nonnegative(s: Seq<char>)
    requires
        all_digits(s),
    ensures
        0 <= decimal_value(s),
    decreases s.len(),
{
    if s.len() > 0 {
        assert(is_digit(s[s.len() - 1]));
        lemma_decimal_value_nonnegative(s.drop_last());
    }
}

/// Reads an unsigned decimal number.
pub fn parse_u64(s: &str) -> (value: Option<u64>)
    ensures
        value == parsed_u64(s@),
{
    let chars = str_chars(s);
    let start: usize = if chars.len() > 0 && chars[0] == '+' {
        1
    } else {
        0
    };
    let ghost digits = unsigned_digits(s@);
    assert(digits =~= chars@.subrange(start as int, chars@.len() as int));
    if start == chars.len() {
        return None;
    }
    let mut value: u64 = 0;
    let mut i: usize = start;
    while i < chars.len()
        invariant
            start <= i <= chars.len(),
            start <= 1,
            digits == chars@.subrange(start as int, chars@.len() as int),
            digits == unsigned_digits(s@),
            all_digits(digits.take(i - start)),
            value == decimal_value(digits.take(i - start)),
        decreases chars.len() - i,
    {
        let c = chars[i];
        let ghost seen = digits.take(i - start);
        let ghost next = digits.take(i - start + 1);
        assert(next.drop_last() =~= seen);
        assert(next.last() == c);
        if c < '0' || c > '9' {
            assert(!is_digit(digits[i - start]));
            return None;
        }
        let d: u64 = (c as u32 - '0' as u32) as u64;
        assert(d == digit_value(c));
        assert(all_digits(next)) by {
            assert forall|k: int| 0 <= k < next.len() implies is_digit(#[trigger] next[k]) by {
                if k < seen.len() {
                    assert(next[k] == seen[k]);
                }
            }
        }
        if value > (u64::MAX - d) / 10 {
            proof {
                assert(decimal_value(next) > u64::MAX);
                if all_digits(digits) {
                    lemma_decimal_value_grows(digits, i - start + 1);
                }
            }
            return None;
        }
        value = value * 10 + d;
        i += 1;
    }
    assert(digits.take(i - start) =~= digits);
    Some(value)
}

/// Reads a platform id: an unsigned decimal number other than zero.
pub fn parse_id(s: &str) -> (id: Option<u64>)
    ensures
        id == parsed_id(s@),
{
    match parse_u64(s) {
        Some(n) => if n == 0 {
            None
        } else {
            Some(n)
        },
        None => None,
    }
}

/// Lexicographic order on byte strings: `a` comes strictly before `b`.
pub open spec fn bytes_before(a: Seq<u8>, b: Seq<u8>) -> bool
    decreases a.len(),
{
    if b.len() == 0 {
        false
    } else if a.len() == 0 {
        true
    } else if a[0] != b[0] {
        a[0] < b[0]
    } else {
        bytes_before(a.drop_first(), b.drop_first())
    }
}

/// The order of texts: that of their UTF-8 encodings, byte by byte.
pub open spec fn text_before(a: Seq<char>, b: Seq<char>) -> bool {
    bytes_before(vstd::utf8::encode_utf8(a), vstd::utf8::encode_utf8(b))
}

/// Nothing comes before itself.
pub proof fn lemma_bytes_before_irreflexive(a: Seq<u8>)
    ensures
        !bytes_before(a, a),
    decreases a.len(),
{
    if a.len() > 0 {
        lemma_bytes_before_irreflexive(a.drop_first());
    }
}

/// The order is transitive.
pub proof fn lemma_bytes_before_transitive(a: Seq<u8>, b: Seq<u8>, c: Seq<u8>)
    requires
        bytes_before(a, b),
        bytes_before(b, c),
    ensures
        bytes_before(a, c),
    decreases a.len(),
{
    if a.len() > 0 && a[0] == b[0] && b[0] == c[0] {
        lemma_bytes_before_transitive(a.drop_first(), b.drop_first(), c.drop_first());
    }
}

/// Of two different byte strings, one comes before the other.
pub proof fn lemma_bytes_before_total(a: Seq<u8>, b: Seq<u8>)
    ensures
        bytes_before(a, b) || bytes_before(b, a) || a == b,
    decreases a.len(),
{
    if a.len() > 0 && b.len() > 0 && a[0] == b[0] {
        lemma_bytes_before_total(a.drop_first(), b.drop_first());
        if a.drop_first() == b.drop_first() {
            assert(a =~= seq![a[0]] + a.drop_first());
            assert(b =~= seq![b[0]] + b.drop_first());
        }
    } else if a.len() == 0 && b.len() == 0 {
        assert(a =~= b);
    }
}

/// The order of texts is a strict total order.
pub proof fn lemma_text_order(a: Seq<char>, b: Seq<char>, c: Seq<char>)
    ensures
        !text_before(a, a),
        text_before(a, b) && text_before(b, c) ==> text_before(a, c),
        text_before(a, b) || text_before(b, a) || a == b,
{
    let x = vstd::utf8::encode_utf8(a);
    let y = vstd::utf8::encode_utf8(b);
    let z = vstd::utf8::encode_utf8(c);
    lemma_bytes_before_irreflexive(x);
    if bytes_before(x, y) && bytes_before(y, z) {
        lemma_bytes_before_transitive(x, y, z);
    }
    lemma_bytes_before_total(x, y);
    lemma_encoding_injective(a, b);
}

/// Whether the text `a` comes strictly before the text `b`.
pub fn str_before(a: &str, b: &str) -> (before: bool)
    ensures
        before == text_before(a@, b@),
{
    let x = a.as_bytes();
    let y = b.as_bytes();
    let mut i: usize = 0;
    assert(x@.skip(0) =~= x@ && y@.skip(0) =~= y@);
    while i < x.len() && i < y.len()
        invariant
            i <= x.len(),
            i <= y.len(),
            x@ == a.spec_bytes(),
            y@ == b.spec_bytes(),
            bytes_before(x@, y@) == bytes_before(x@.skip(i as int), y@.skip(i as int)),
        decreases x.len() - i,
    {
        let ghost xs = x@.skip(i as int);
        let ghost ys = y@.skip(i as int);
        assert(xs[0] == x@[i as int]);
        assert(ys[0] == y@[i as int]);
        if x[i] != y[i] {
            return x[i] < y[i];
        }
        assert(xs.drop_first() =~= x@.skip(i + 1));
        assert(ys.drop_first() =~= y@.skip(i + 1));
        i += 1;
    }
    i < y.len()
}

/// The string made of the given characters.
///
/// Trusted: collects the characters with std's `String::from_iter`, which
/// appends each character in turn.
#[verifier::external_body]
pub(crate) fn string_from_chars(chars: &Vec<char>) -> (out: String)
    ensures
        out@ == chars@,
{
    String::from_iter(chars.iter())
}

/// The pieces of `s` between occurrences of `sep`, read off character by
/// character: a separator closes the current piece and opens an empty one,
/// any other character joins the current piece. A text without `sep` is one
/// piece; an empty text is one empty piece.
pub open spec fn split_on(s: Seq<char>, sep: char) -> Seq<Seq<char>>
    decreases s.len(),
{
    if s.len() == 0 {
        seq![Seq::<char>::empty()]
    } else {
        let front = split_on(s.drop_last(), sep);
        if s.last() == sep {
            front.push(Seq::<char>::empty())
        } else {
            front.drop_last().push(front.last().push(s.last()))
        }
    }
}

/// The pieces put together again, with `sep` between each two.
pub open spec fn join_with(pieces: Seq<Seq<char>>, sep: char) -> Seq<char>
    decreases pieces.len(),
{
    if pieces.len() == 0 {
        Seq::<char>::empty()
    } else if pieces.len() == 1 {
        pieces[0]
    } else {
        join_with(pieces.drop_last(), sep).push(sep) + pieces.last()
    }
}

/// Splitting takes a text apart at its separators and at nothing else:
/// there is at least one piece, no piece holds a separator, and the pieces
/// joined by separators are the text.
pub proof fn lemma_split_on(s: Seq<char>, sep: char)
    ensures
        split_on(s, sep).len() >= 1,
        forall|i: int, k: int|
            0 <= i < split_on(s, sep).len() && 0 <= k < split_on(s, sep)[i].len() ==> split_on(
                s,
                sep,
            )[i][k] != sep,
        join_with(split_on(s, sep), sep) == s,
    decreases s.len(),
{
    let pieces = split_on(s, sep);
    if s.len() == 0 {
        assert(pieces =~= seq![Seq::<char>::empty()]);
        assert(join_with(pieces, sep) =~= s);
    } else {
        let front = split_on(s.drop_last(), sep);
        lemma_split_on(s.drop_last(), sep);
        if s.last() == sep {
            assert(pieces.drop_last() =~= front);
            assert(join_with(pieces, sep) =~= join_with(front, sep).push(sep));
            assert(join_with(front, sep).push(sep) =~= s);
        } else {
            let grown = front.last().push(s.last());
            assert(pieces =~= front.drop_last().push(grown));
            assert(pieces.drop_last() =~= front.drop_last());
            if front.len() == 1 {
                assert(join_with(front, sep) == front[0]);
                assert(join_with(pieces, sep) =~= front[0].push(s.last()));
            } else {
                assert(join_with(front, sep) == join_with(front.drop_last(), sep).push(sep)
                    + front.last());
                assert(join_with(pieces, sep) =~= (join_with(front.drop_last(), sep).push(sep)
                    + front.last()).push(s.last()));
            }
            assert(s =~= s.drop_last().push(s.last()));
            assert forall|i: int, k: int|
                0 <= i < pieces.len() && 0 <= k < pieces[i].len() implies pieces[i][k] != sep by {
                if i < pieces.len() - 1 {
                    assert(pieces[i] == front[i]);
                } else if k < front.last().len() {
                    assert(pieces[i][k] == front[front.len() - 1][k]);
                }
            }
        }
    }
}

/// The views of a list of strings.
pub open spec fn text_views(strings: Seq<String>) -> Seq<Seq<char>> {
    strings.map_values(|s: String| s@)
}

/// Splits a text at every occurrence of `sep`.
pub fn split(s: &str, sep: char) -> (parts: Vec<String>)
    ensures
        text_views(parts@) == split_on(s@, sep),
{
    let chars = str_chars(s);
    let mut parts: Vec<String> = Vec::new();
    let mut piece: Vec<char> = Vec::new();
    let mut i: usize = 0;
    assert(text_views(parts@).push(piece@) =~= seq![Seq::<char>::empty()]);
    while i < chars.len()
        invariant
            i <= chars.len(),
            chars@ == s@,
            split_on(chars@.take(i as int), sep) == text_views(parts@).push(piece@),
        decreases chars.len() - i,
    {
        let c = chars[i];
        let ghost closed = text_views(parts@);
        let ghost current = piece@;
        assert(chars@.take(i + 1).drop_last() =~= chars@.take(i as int));
        if c == sep {
            parts.push(string_from_chars(&piece));
            piece = Vec::new();
            assert(text_views(parts@) =~= closed.push(current));
            assert(piece@ =~= Seq::<char>::empty());
        } else {
            piece.push(c);
            assert(closed.push(current).drop_last() =~= closed);
        }
        i += 1;
    }
    assert(chars@.take(i as int) =~= chars@);
    let ghost closed = text_views(parts@);
    parts.push(string_from_chars(&piece));
    assert(text_views(parts@) =~= closed.push(piece@));
    parts
}

/// `text` with every occurrence of `pattern` replaced by `with`, reading
/// from the left and skipping over each occurrence once it is replaced. An
/// empty pattern occurs nowhere.
pub open spec fn replace_all(text: Seq<char>, pattern: Seq<char>, with: Seq<char>) -> Seq<char>
    decreases text.len(),
{
    if pattern.len() == 0 || text.len() < pattern.len() {
        text
    } else if text.take(pattern.len() as int) == pattern {
        with + replace_all(text.skip(pattern.len() as int), pattern, with)
    } else {
        seq![text[0]] + replace_all(text.drop_first(), pattern, with)
    }
}

/// Whether `pattern` occurs in `text` at position `at`.
fn occurs_at(text: &Vec<char>, at: usize, pattern: &Vec<char>) -> (found: bool)
    requires
        at <= text@.len(),
    ensures
        found == (at + pattern@.len() <= text@.len() && text@.subrange(
            at as int,
            at + pattern@.len(),
        ) == pattern@),
{
    if pattern.len() > text.len() - at {
        return false;
    }
    let mut k: usize = 0;
    while k < pattern.len()
        invariant
            k <= pattern.len(),
            at + pattern.len() <= text.len(),
            forall|j: int| 0 <= j < k ==> text@[at + j] == pattern@[j],
        decreases pattern.len() - k,
    {
        if text[at + k] != pattern[k] {
            assert(text@.subrange(at as int, at + pattern@.len())[k as int] != pattern@[k as int]);
            return false;
        }
        k += 1;
    }
    assert(text@.subrange(at as int, at + pattern@.len()) =~= pattern@);
    true
}

/// Replaces every occurrence of `pattern` in `text` by `with`.
pub fn replace_chars(text: &Vec<char>, pattern: &Vec<char>, with: &Vec<char>) -> (out: Vec<char>)
    ensures
        out@ == replace_all(text@, pattern@, with@),
{
    let mut out: Vec<char> = Vec::new();
    if pattern.len() == 0 {
        let mut c: usize = 0;
        while c < text.len()
            invariant
                c <= text.len(),
                out@ == text@.take(c as int),
            decreases text.len() - c,
        {
            out.push(text[c]);
            assert(out@ =~= text@.take(c + 1));
            c += 1;
        }
        assert(text@.take(c as int) =~= text@);
        return out;
    }
    let mut i: usize = 0;
    assert(text@.skip(0) =~= text@);
    while i < text.len()
        invariant
            i <= text.len(),
            pattern@.len() > 0,
            replace_all(text@, pattern@, with@) == out@ + replace_all(
                text@.skip(i as int),
                pattern@,
                with@,
            ),
        decreases text.len() - i,
    {
        let ghost rest = text@.skip(i as int);
        let ghost done = out@;
        if occurs_at(text, i, pattern) {
            assert(rest.take(pattern@.len() as int) =~= text@.subrange(
                i as int,
                i + pattern@.len(),
            ));
            assert(rest.skip(pattern@.len() as int) =~= text@.skip(i + pattern@.len()));
            let mut w: usize = 0;
            while w < with.len()
                invariant
                    w <= with.len(),
                    out@ == done + with@.take(w as int),
                decreases with.len() - w,
            {
                out.push(with[w]);
                assert(out@ =~= done + with@.take(w + 1));
                w += 1;
            }
            assert(with@.take(w as int) =~= with@);
            assert(out@ + replace_all(text@.skip(i + pattern@.len()), pattern@, with@) =~= done + (
            with@ + replace_all(rest.skip(pattern@.len() as int), pattern@, with@)));
            i += pattern.len();
        } else {
            proof {
                if rest.len() >= pattern@.len() {
                    assert(rest.take(pattern@.len() as int) =~= text@.subrange(
                        i as int,
                        i + pattern@.len(),
                    ));
                    assert(rest.drop_first() =~= text@.skip(i + 1));
                } else {
                    lemma_replace_all_short(rest, pattern@, with@);
                    lemma_replace_all_short(text@.skip(i + 1), pattern@, with@);
                    assert(rest =~= seq![rest[0]] + text@.skip(i + 1));
                }
            }
            out.push(text[i]);
            assert(out@ + replace_all(text@.skip(i + 1), pattern@, with@) =~= done + (seq![rest[0]]
                + replace_all(text@.skip(i + 1), pattern@, with@)));
            i += 1;
        }
    }
    assert(text@.skip(i as int) =~= Seq::<char>::empty());
    assert(out@ + Seq::<char>::empty() =~= out@);
    out
}

/// A text shorter than the pattern holds no occurrence of it.
proof fn lemma_replace_all_short(text: Seq<char>, pattern: Seq<char>, with: Seq<char>)
    requires
        text.len() < pattern.len(),
    ensures
        replace_all(text, pattern, with) == text,
{
}

/// The character for the digit `d`.
pub open spec fn digit_char(d: int) -> char {
    ('0' as int + d) as char
}

/// The decimal digits of a natural number, without leading zeros.
pub open spec fn digits_of(n: nat) -> Seq<char>
    decreases n,
{
    if n < 10 {
        seq![digit_char(n as int)]
    } else {
        digits_of(n / 10).push(digit_char((n % 10) as int))
    }
}

/// The decimal text of an integer: a minus sign for a negative one, then the
/// digits of its magnitude.
pub open spec fn decimal(n: int) -> Seq<char> {
    if n < 0 {
        seq!['-'] + digits_of((-n) as nat)
    } else {
        digits_of(n as nat)
    }
}

/// The digits of a number denote that number.
pub proof fn lemma_digits_denote(n: nat)
    ensures
        all_digits(digits_of(n)),
        decimal_value(digits_of(n)) == n,
        digits_of(n).len() >= 1,
    decreases n,
{
    if n < 10 {
        let d = digits_of(n);
        assert(d.drop_last() =~= Seq::<char>::empty());
        assert(decimal_value(d.drop_last()) == 0);
    } else {
        lemma_digits_denote(n / 10);
        let front = digits_of(n / 10);
        let d = digits_of(n);
        assert(d.drop_last() =~= front);
        assert forall|i: int| 0 <= i < d.len() implies is_digit(#[trigger] d[i]) by {
            if i < front.len() {
                assert(d[i] == front[i]);
            }
        }
    }
}

/// The character for a digit.
fn digit_to_char(d: u8) -> (c: char)
    requires
        d < 10,
    ensures
        c == digit_char(d as int),
{
    match d {
        0 => '0',
        1 => '1',
        2 => '2',
        3 => '3',
        4 => '4',
        5 => '5',
        6 => '6',
        7 => '7',
        8 => '8',
        _ => '9',
    }
}

/// The decimal characters of an integer.
pub fn decimal_chars(n: i128) -> (out: Vec<char>)
    ensures
        out@ == decimal(n as int),
{
    let negative = n < 0;
    let magnitude: u128 = if negative {
        (-(n + 1)) as u128 + 1
    } else {
        n as u128
    };
    let mut low: Vec<char> = Vec::new();
    let mut rest: u128 = magnitude;
    while rest >= 10
        invariant
            digits_of(magnitude as nat) == digits_of(rest as nat) + Seq::new(
                low@.len(),
                |k: int| low@[low@.len() - 1 - k],
            ),
        decreases rest,
    {
        let d = digit_to_char((rest % 10) as u8);
        let ghost before = low@;
        low.push(d);
        assert(digits_of(rest as nat) + Seq::new(
            before.len(),
            |k: int| before[before.len() - 1 - k],
        ) =~= digits_of((rest / 10) as nat) + Seq::new(
            low@.len(),
            |k: int| low@[low@.len() - 1 - k],
        ));
        rest = rest / 10;
    }
    let mut out: Vec<char> = Vec::new();
    if negative {
        out.push('-');
    }
    out.push(digit_to_char(rest as u8));
    let ghost head = out@;
    let mut k: usize = low.len();
    while k > 0
        invariant
            k <= low.len(),
            out@ == head + Seq::new((low@.len() - k) as nat, |j: int| low@[low@.len() - 1 - j]),
        decreases k,
    {
        k -= 1;
        let ghost before = out@;
        out.push(low[k]);
        assert(out@ =~= head + Seq::new(
            (low@.len() - k) as nat,
            |j: int| low@[low@.len() - 1 - j],
        ));
    }
    assert(out@ =~= decimal(n as int));
    out
}

/// The decimal text of an integer.
pub fn decimal_text(n: i128) -> (out: String)
    ensures
        out@ == decimal(n as int),
{
    let chars = decimal_chars(n);
    string_from_chars(&chars)
}

} // verus!
