//! Text codecs for the scalar kinds a property can hold.
//!
//! Every scalar is stored as plain text. The grammars are:
//! - integer: an optional leading `-`, then one or more decimal digits;
//!   values must fit in `i64`.
//! - boolean: exactly `"0"` (false) or `"1"` (true).
//! - float: an optional leading `-`, one or more decimal digits, then an
//!   optional fractional part: a `.` followed by one or more digits. Float
//!   values are carried as their validated text, never as machine floats.
use vstd::prelude::*;

verus! {

/// A decimal digit character.
pub open spec fn is_digit(c: char) -> bool {
    '0' <= c && c <= '9'
}

/// Numeric value of one digit character.
pub open spec fn digit_val(c: char) -> nat
    recommends
        is_digit(c),
{
    (c as nat - '0' as nat) as nat
}

/// The digit character for a value below ten.
pub open spec fn digit_char(d: nat) -> char
    recommends
        d < 10,
{
    if d == 0 {
        '0'
    } else if d == 1 {
        '1'
    } else if d == 2 {
        '2'
    } else if d == 3 {
        '3'
    } else if d == 4 {
        '4'
    } else if d == 5 {
        '5'
    } else if d == 6 {
        '6'
    } else if d == 7 {
        '7'
    } else if d == 8 {
        '8'
    } else {
        '9'
    }
}

/// Every character of `s` is a decimal digit.
pub open spec fn all_digits(s: Seq<char>) -> bool {
    forall|i: int| 0 <= i < s.len() ==> is_digit(#[trigger] s[i])
}

/// The number denoted by a sequence of digit characters (most significant first).
pub open spec fn digits_val(s: Seq<char>) -> nat
    decreases s.len(),
{
    if s.len() == 0 {
        0
    } else {
        digits_val(s.drop_last()) * 10 + digit_val(s.last())
    }
}

/// Canonical decimal text of a natural number: no sign, no leading zeros
/// (except for the single digit `0` itself).
pub open spec fn nat_text(n: nat) -> Seq<char>
    decreases n,
{
    if n < 10 {
        seq![digit_char(n)]
    } else {
        nat_text(n / 10) + seq![digit_char(n % 10)]
    }
}

/// Canonical decimal text of an integer: a `-` sign for negative values,
/// then the canonical digits of the magnitude.
pub open spec fn int_text(n: int) -> Seq<char> {
    if n < 0 {
        seq!['-'] + nat_text((-n) as nat)
    } else {
        nat_text(n as nat)
    }
}

/// `s` matches the integer grammar: `['-'] digit+`.
pub open spec fn int_grammar(s: Seq<char>) -> bool {
    if s.len() > 0 && s[0] == '-' {
        s.len() > 1 && all_digits(s.skip(1))
    } else {
        s.len() > 0 && all_digits(s)
    }
}

/// The integer denoted by text matching the integer grammar.
pub open spec fn int_val(s: Seq<char>) -> int
    recommends
        int_grammar(s),
{
    if s.len() > 0 && s[0] == '-' {
        -(digits_val(s.skip(1)) as int)
    } else {
        digits_val(s) as int
    }
}

/// What integer decoding yields: the denoted value when the text matches the
/// grammar and the value fits in `i64`, and nothing otherwise.
pub open spec fn parse_int_text(s: Seq<char>) -> Option<int> {
    if int_grammar(s) && i64::MIN <= int_val(s) <= i64::MAX {
        Some(int_val(s))
    } else {
        None
    }
}

/// Appending one digit multiplies the value by ten and adds the digit.
proof fn lemma_digits_val_push(s: Seq<char>, c: char)
    ensures
        digits_val(s.push(c)) == digits_val(s) * 10 + digit_val(c),
{
    assert(s.push(c).drop_last() =~= s);
    assert(s.push(c).last() == c);
}

/// The value of a digit string never shrinks as a prefix is extended.
proof fn lemma_digits_val_prefix_le(s: Seq<char>, i: int, j: int)
    requires
        0 <= i <= j <= s.len(),
    ensures
        digits_val(s.subrange(0, i)) <= digits_val(s.subrange(0, j)),
    decreases j - i,
{
    if i < j {
        lemma_digits_val_prefix_le(s, i, j - 1);
        assert(s.subrange(0, j).drop_last() =~= s.subrange(0, j - 1));
        assert(digits_val(s.subrange(0, j)) == digits_val(s.subrange(0, j - 1)) * 10
            + digit_val(s.subrange(0, j).last()));
    } else {
        assert(s.subrange(0, i) =~= s.subrange(0, j));
    }
}

/// A run of digits denoting more than `2^63` puts the whole text outside
/// the `i64` range, whichever sign it carries.
proof fn lemma_magnitude_overflow(s: Seq<char>, neg: bool, start: int)
    requires
        0 <= start <= s.len(),
        start == if neg { 1int } else { 0int },
        neg ==> s.len() > 0 && s[0] == '-',
        !neg && s.len() > 0 ==> s[0] != '-',
        digits_val(s.skip(start)) > 9223372036854775808,
    ensures
        parse_int_text(s) is None,
{
    if int_grammar(s) {
        if neg {
            assert(int_val(s) == -(digits_val(s.skip(1)) as int));
            assert(int_val(s) < i64::MIN);
        } else {
            assert(s.skip(0) =~= s);
            assert(int_val(s) > i64::MAX);
        }
    }
}

/// Reads an integer out of its decimal text.
///
/// Succeeds exactly on text matching `['-'] digit+` whose value fits in
/// `i64`; leading zeros are accepted.
pub fn parse_int(s: &str) -> (r: Option<i64>)
    ensures
        r matches Some(v) ==> parse_int_text(s@) == Some(v as int),
        r is None ==> parse_int_text(s@) is None,
{
    let n = s.unicode_len();
    let neg = n > 0 && s.get_char(0) == '-';
    let start: usize = if neg { 1 } else { 0 };
    if start >= n {
        // empty text, or a bare sign
        return None;
    }
    let ghost digits = s@.skip(start as int);
    assert(digits =~= s@.subrange(start as int, n as int));
    let mut mag: u64 = 0;
    let mut i: usize = start;
    while i < n
        invariant
            start <= i <= n,
            n == s@.len(),
            start == if neg { 1int } else { 0int },
            neg ==> s@[0] == '-',
            !neg && n > 0 ==> s@[0] != '-',
            digits == s@.skip(start as int),
            all_digits(s@.subrange(start as int, i as int)),
            mag == digits_val(s@.subrange(start as int, i as int)),
            mag <= 9223372036854775808u64,
        decreases n - i,
    {
        let c = s.get_char(i);
        if !('0' <= c && c <= '9') {
            // a non-digit breaks the grammar outright
            assert(!all_digits(digits)) by {
                assert(digits[i - start] == s@[i as int]);
            }
            return None;
        }
        let d: u64 = (c as u32 - '0' as u32) as u64;
        proof {
            assert(s@.subrange(start as int, i + 1) =~= s@.subrange(start as int, i as int).push(
                s@[i as int],
            ));
            lemma_digits_val_push(s@.subrange(start as int, i as int), s@[i as int]);
        }
        if mag > 922337203685477580u64 {
            // even before the next digit, ten times the prefix already
            // overshoots the i64 range
            proof {
                assert(digits.subrange(0, i + 1 - start) =~= s@.subrange(start as int, i + 1));
                assert(digits.subrange(0, digits.len() as int) =~= digits);
                lemma_digits_val_prefix_le(digits, i + 1 - start, digits.len() as int);
                assert(digits_val(s@.subrange(start as int, i + 1)) >= mag * 10);
                lemma_magnitude_overflow(s@, neg, start as int);
            }
            return None;
        }
        mag = mag * 10 + d;
        i = i + 1;
        if mag > 9223372036854775808u64 {
            proof {
                assert(digits.subrange(0, i - start) =~= s@.subrange(start as int, i as int));
                assert(digits.subrange(0, digits.len() as int) =~= digits);
                lemma_digits_val_prefix_le(digits, i - start, digits.len() as int);
                lemma_magnitude_overflow(s@, neg, start as int);
            }
            return None;
        }
    }
    proof {
        assert(s@.subrange(start as int, n as int) =~= digits);
        assert(all_digits(digits));
        assert(mag == digits_val(digits));
        if neg {
            assert(int_grammar(s@));
            assert(int_val(s@) == -(mag as int));
        } else {
            assert(s@.skip(0) =~= s@);
            assert(int_grammar(s@));
            assert(int_val(s@) == mag as int);
        }
    }
    if neg {
        if mag == 9223372036854775808u64 {
            Some(i64::MIN)
        } else {
            Some(-(mag as i64))
        }
    } else {
        if mag == 9223372036854775808u64 {
            None
        } else {
            Some(mag as i64)
        }
    }
}

/// A one-character string for each decimal digit.
fn digit_str(d: u64) -> (r: &'static str)
    requires
        d < 10,
    ensures
        r@ == seq![digit_char(d as nat)],
{
    proof {
        reveal_strlit("0");
        reveal_strlit("1");
        reveal_strlit("2");
        reveal_strlit("3");
        reveal_strlit("4");
        reveal_strlit("5");
        reveal_strlit("6");
        reveal_strlit("7");
        reveal_strlit("8");
        reveal_strlit("9");
    }
    let r = if d == 0 {
        "0"
    } else if d == 1 {
        "1"
    } else if d == 2 {
        "2"
    } else if d == 3 {
        "3"
    } else if d == 4 {
        "4"
    } else if d == 5 {
        "5"
    } else if d == 6 {
        "6"
    } else if d == 7 {
        "7"
    } else if d == 8 {
        "8"
    } else {
        "9"
    };
    proof {
        assert(r@ =~= seq![digit_char(d as nat)]);
    }
    r
}

/// Writes a natural number as its canonical decimal text.
fn nat_to_text(n: u64) -> (r: String)
    ensures
        r@ == nat_text(n as nat),
    decreases n,
{
    if n < 10 {
        digit_str(n).to_owned()
    } else {
        let mut r = nat_to_text(n / 10);
        r.append(digit_str(n % 10));
        proof {
            assert(r@ =~= nat_text(n as nat));
        }
        r
    }
}

/// Writes an integer as its canonical decimal text: a `-` sign for negative
/// values, then the digits of the magnitude, without leading zeros.
pub fn int_to_text(n: i64) -> (r: String)
    ensures
        r@ == int_text(n as int),
{
    if n >= 0 {
        nat_to_text(n as u64)
    } else {
        let mag: u64 = if n == i64::MIN {
            9223372036854775808u64
        } else {
            (-n) as u64
        };
        proof {
            reveal_strlit("-");
        }
        let mut r = "-".to_owned();
        let tail = nat_to_text(mag);
        r.append(tail.as_str());
        proof {
            assert(r@ =~= int_text(n as int));
        }
        r
    }
}

/// The digit character of a value below ten denotes that value back.
proof fn lemma_digit_char_val(d: nat)
    requires
        d < 10,
    ensures
        is_digit(digit_char(d)),
        digit_val(digit_char(d)) == d,
{
}

/// Canonical decimal text is a nonempty run of digits denoting the number
/// it was made from, and for ten or more it never starts with `0`.
proof fn lemma_nat_text_val(n: nat)
    ensures
        nat_text(n).len() >= 1,
        all_digits(nat_text(n)),
        digits_val(nat_text(n)) == n,
    decreases n,
{
    if n < 10 {
        lemma_digit_char_val(n);
        let t = nat_text(n);
        assert(t =~= seq![digit_char(n)]);
        assert(t.len() == 1);
        assert(t.drop_last() =~= Seq::<char>::empty());
        assert(digits_val(t.drop_last()) == 0);
        assert(t.last() == digit_char(n));
        assert(digits_val(t) == digits_val(t.drop_last()) * 10 + digit_val(t.last()));
        assert(digits_val(t) == n);
    } else {
        lemma_nat_text_val(n / 10);
        lemma_digit_char_val(n % 10);
        let t = nat_text(n);
        assert(t =~= nat_text(n / 10) + seq![digit_char(n % 10)]);
        assert(t.drop_last() =~= nat_text(n / 10));
        assert(t.last() == digit_char(n % 10));
        assert(digits_val(t) == digits_val(t.drop_last()) * 10 + digit_val(t.last()));
        assert(digits_val(t) == (n / 10) * 10 + n % 10);
        assert((n / 10) * 10 + n % 10 == n) by (nonlinear_arith);
        assert(digits_val(t) == n);
    }
}

/// Round-trip: decoding the canonical text of any `i64` value yields that
/// value back.
pub proof fn lemma_int_text_round_trip(n: int)
    requires
        i64::MIN <= n <= i64::MAX,
    ensures
        parse_int_text(int_text(n)) == Some(n),
{
    if n >= 0 {
        lemma_nat_text_val(n as nat);
        let t = int_text(n);
        assert(t[0] != '-') by {
            assert(is_digit(t[0]));
        }
        assert(t.skip(0) =~= t);
    } else {
        lemma_nat_text_val((-n) as nat);
        let t = int_text(n);
        assert(t[0] == '-');
        assert(t.skip(1) =~= nat_text((-n) as nat));
        assert(digits_val(t.skip(1)) == -n);
    }
}

/// The text of a boolean: `"1"` for true, `"0"` for false.
pub open spec fn bool_text(b: bool) -> Seq<char> {
    if b {
        seq!['1']
    } else {
        seq!['0']
    }
}

/// What boolean decoding yields: only the exact texts `"1"` and `"0"` are
/// accepted.
pub open spec fn parse_bool_text(s: Seq<char>) -> Option<bool> {
    if s == seq!['1'] {
        Some(true)
    } else if s == seq!['0'] {
        Some(false)
    } else {
        None
    }
}

/// Writes a boolean as `"1"` or `"0"`.
pub fn bool_to_text(b: bool) -> (r: String)
    ensures
        r@ == bool_text(b),
{
    proof {
        reveal_strlit("1");
        reveal_strlit("0");
    }
    let r = if b {
        "1".to_owned()
    } else {
        "0".to_owned()
    };
    proof {
        assert(r@ =~= bool_text(b));
    }
    r
}

/// Reads a boolean out of its text: succeeds exactly on `"1"` and `"0"`.
pub fn parse_bool(s: &str) -> (r: Option<bool>)
    ensures
        r == parse_bool_text(s@),
{
    if s.unicode_len() == 1 {
        let c = s.get_char(0);
        if c == '1' {
            proof {
                assert(s@ =~= seq!['1']);
            }
            Some(true)
        } else if c == '0' {
            proof {
                assert(s@ =~= seq!['0']);
                assert(s@ != seq!['1']);
            }
            Some(false)
        } else {
            proof {
                assert(s@ != seq!['1']);
                assert(s@ != seq!['0']);
            }
            None
        }
    } else {
        proof {
            assert(s@ != seq!['1']);
            assert(s@ != seq!['0']);
        }
        None
    }
}

/// Round-trip: decoding the text of a boolean yields that boolean back.
pub proof fn lemma_bool_text_round_trip(b: bool)
    ensures
        parse_bool_text(bool_text(b)) == Some(b),
{
    assert(seq!['1'] != seq!['0']) by {
        assert(seq!['1'][0] == '1');
    }
}

/// The index of the first `.` in `t`, or `t.len()` if there is none.
pub open spec fn first_dot(t: Seq<char>) -> int
    decreases t.len(),
{
    if t.len() == 0 {
        0
    } else if t[0] == '.' {
        0
    } else {
        1 + first_dot(t.skip(1))
    }
}

proof fn lemma_first_dot(t: Seq<char>)
    ensures
        0 <= first_dot(t) <= t.len(),
        forall|j: int| 0 <= j < first_dot(t) ==> #[trigger] t[j] != '.',
        first_dot(t) < t.len() ==> t[first_dot(t)] == '.',
    decreases t.len(),
{
    if t.len() > 0 && t[0] != '.' {
        lemma_first_dot(t.skip(1));
        assert(forall|j: int| 1 <= j < first_dot(t) ==> #[trigger] t[j] == t.skip(1)[j - 1]);
    }
}

/// If every position below `k` is dot-free and `k` is a dot or the end,
/// then `k` is the first dot position.
proof fn lemma_first_dot_at(t: Seq<char>, k: int)
    requires
        0 <= k <= t.len(),
        forall|j: int| 0 <= j < k ==> #[trigger] t[j] != '.',
        k < t.len() ==> t[k] == '.',
    ensures
        first_dot(t) == k,
    decreases k,
{
    if t.len() == 0 {
    } else if k == 0 {
        if t.len() > 0 && t[0] != '.' {
            lemma_first_dot(t.skip(1));
        }
    } else {
        assert(t[0] != '.');
        assert(forall|j: int| 0 <= j < k - 1 ==> #[trigger] t.skip(1)[j] == t[j + 1]);
        lemma_first_dot_at(t.skip(1), k - 1);
    }
}

/// The mantissa grammar: `digit+ ['.' digit+]`.
pub open spec fn mantissa_grammar(t: Seq<char>) -> bool {
    let i = first_dot(t);
    if i == t.len() {
        t.len() > 0 && all_digits(t)
    } else {
        i >= 1 && all_digits(t.take(i)) && i + 1 < t.len() && all_digits(t.skip(i + 1))
    }
}

/// `s` matches the float grammar: `['-'] digit+ ['.' digit+]`. Float values
/// are carried as this validated text; no machine float is ever formed here.
pub open spec fn float_grammar(s: Seq<char>) -> bool {
    if s.len() > 0 && s[0] == '-' {
        mantissa_grammar(s.skip(1))
    } else {
        mantissa_grammar(s)
    }
}

/// The first position at or past `from` that does not hold a digit.
fn digit_run_end(s: &str, from: usize) -> (r: usize)
    requires
        from <= s@.len(),
    ensures
        from <= r <= s@.len(),
        forall|j: int| from <= j < r ==> is_digit(#[trigger] s@[j]),
        r < s@.len() ==> !is_digit(s@[r as int]),
{
    let n = s.unicode_len();
    let mut i: usize = from;
    while i < n
        invariant
            from <= i <= n,
            n == s@.len(),
            forall|j: int| from <= j < i ==> is_digit(#[trigger] s@[j]),
        decreases n - i,
    {
        let c = s.get_char(i);
        if !('0' <= c && c <= '9') {
            return i;
        }
        i = i + 1;
    }
    i
}

/// Checks a text against the float grammar.
pub fn check_float_text(s: &str) -> (r: bool)
    ensures
        r == float_grammar(s@),
{
    let n = s.unicode_len();
    let neg = n > 0 && s.get_char(0) == '-';
    let start: usize = if neg { 1 } else { 0 };
    let ghost t = s@.skip(start as int);
    proof {
        lemma_first_dot(t);
        assert(forall|j: int| 0 <= j < t.len() ==> #[trigger] t[j] == s@[j + start]);
        if neg {
            assert(t =~= s@.skip(1));
        } else {
            assert(t =~= s@);
        }
        assert(float_grammar(s@) == mantissa_grammar(t));
    }
    if start >= n {
        proof {
            assert(t.len() == 0);
        }
        return false;
    }
    let i = digit_run_end(s, start);
    proof {
        assert(forall|j: int| 0 <= j < i - start ==> is_digit(#[trigger] t[j]));
        assert(forall|j: int| 0 <= j < i - start ==> #[trigger] t[j] != '.');
    }
    if i == start {
        // no leading digit at all
        proof {
            assert(!is_digit(t[0]));
            if first_dot(t) == t.len() {
                assert(!all_digits(t));
            } else if first_dot(t) >= 1 {
                assert(t.take(first_dot(t))[0] == t[0]);
                assert(!all_digits(t.take(first_dot(t))));
            }
        }
        return false;
    }
    if i == n {
        // digits all the way to the end
        proof {
            lemma_first_dot_at(t, t.len() as int);
            assert(all_digits(t));
        }
        return true;
    }
    let c = s.get_char(i);
    proof {
        assert(t[i - start] == s@[i as int]);
        assert(!is_digit(t[i - start]));
    }
    if c != '.' {
        // a stray character neither digit nor dot
        proof {
            let fd = first_dot(t);
            if fd == t.len() {
                assert(!all_digits(t));
            } else {
                if fd < i - start {
                    assert(t[fd] != '.');
                    assert(false);
                } else if fd == i - start {
                    assert(t[fd] == '.');
                    assert(false);
                } else {
                    assert(t.take(fd)[i - start] == t[i - start]);
                    assert(!all_digits(t.take(fd)));
                }
            }
        }
        return false;
    }
    proof {
        lemma_first_dot_at(t, i - start);
    }
    if i + 1 >= n {
        // a dot must be followed by at least one digit
        proof {
            assert(first_dot(t) == i - start);
            assert(i - start + 1 >= t.len());
        }
        return false;
    }
    let j = digit_run_end(s, i + 1);
    if j < n {
        proof {
            let frac = t.skip(i - start + 1);
            assert(frac[j - i - 1] == s@[j as int]);
            assert(!all_digits(frac));
        }
        return false;
    }
    proof {
        assert(all_digits(t.take(i - start))) by {
            assert(forall|k: int| 0 <= k < i - start ==> #[trigger] t.take(i - start)[k] == t[k]);
        }
        assert(all_digits(t.skip(i - start + 1))) by {
            assert(forall|k: int|
                0 <= k < t.len() - (i - start + 1) ==> #[trigger] t.skip(i - start + 1)[k] == s@[k
                    + i + 1]);
        }
        assert(mantissa_grammar(t));
    }
    true
}

/// Text matching the float grammar is nonempty and never contains a newline.
pub proof fn lemma_float_text_chars(s: Seq<char>)
    requires
        float_grammar(s),
    ensures
        s.len() > 0,
        forall|i: int| 0 <= i < s.len() ==> #[trigger] s[i] != '\n',
{
    if s.len() > 0 && s[0] == '-' {
        let t = s.skip(1);
        lemma_first_dot(t);
        lemma_mantissa_chars(t);
        assert(forall|i: int| 1 <= i < s.len() ==> #[trigger] s[i] == t[i - 1]);
    } else {
        lemma_mantissa_chars(s);
    }
}

/// Text matching the mantissa grammar is nonempty and holds only digits and
/// at most one dot.
proof fn lemma_mantissa_chars(t: Seq<char>)
    requires
        mantissa_grammar(t),
    ensures
        t.len() > 0,
        forall|i: int| 0 <= i < t.len() ==> #[trigger] t[i] != '\n',
{
    lemma_first_dot(t);
    let fd = first_dot(t);
    if fd == t.len() {
        assert(forall|i: int| 0 <= i < t.len() ==> is_digit(#[trigger] t[i]));
    } else {
        assert(forall|i: int| 0 <= i < fd ==> is_digit(#[trigger] t.take(fd)[i]));
        assert(forall|i: int| 0 <= i < fd ==> is_digit(#[trigger] t[i]) || t.take(fd)[i] != t[i]);
        assert(forall|i: int| fd < i < t.len() ==> is_digit(#[trigger] t.skip(fd + 1)[i - fd - 1]));
        assert(forall|i: int|
            fd < i < t.len() ==> is_digit(#[trigger] t[i]) || t.skip(fd + 1)[i - fd - 1] != t[i]);
        assert(t[fd] == '.');
    }
}

/// Canonical integer text never contains a newline.
pub proof fn lemma_int_text_no_newline(n: int)
    ensures
        forall|i: int| 0 <= i < int_text(n).len() ==> int_text(n)[i] != '\n',
        int_text(n).len() >= 1,
{
    if n >= 0 {
        lemma_nat_text_val(n as nat);
        assert(int_text(n) == nat_text(n as nat));
    } else {
        lemma_nat_text_val((-n) as nat);
        let t = int_text(n);
        assert(forall|i: int| 1 <= i < t.len() ==> is_digit(#[trigger] t[i]) && t[i] != '\n') by {
            assert(forall|i: int| 1 <= i < t.len() ==> #[trigger] t[i] == nat_text((-n) as nat)[i
                - 1]);
        }
    }
}

} // verus!
