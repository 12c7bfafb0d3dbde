//! Character-level text utilities shared by the config parser, the address
//! codec and the interface-table reader: digit classification, decimal and
//! hexadecimal numerals, splitting and trimming.
use vstd::prelude::*;

verus! {

// ---------------------------------------------------------------------------
// Digit values
// ---------------------------------------------------------------------------
/// Value of a decimal digit; 10 marks a non-digit.
pub open spec fn dec_val(c: char) -> nat {
    if c == '0' {
        0
    } else if c == '1' {
        1
    } else if c == '2' {
        2
    } else if c == '3' {
        3
    } else if c == '4' {
        4
    } else if c == '5' {
        5
    } else if c == '6' {
        6
    } else if c == '7' {
        7
    } else if c == '8' {
        8
    } else if c == '9' {
        9
    } else {
        10
    }
}

pub open spec fn is_dec_digit(c: char) -> bool {
    dec_val(c) < 10
}

/// Value of a hexadecimal digit (either case); 16 marks a non-digit.
pub open spec fn hex_val(c: char) -> nat {
    if dec_val(c) < 10 {
        dec_val(c)
    } else if c == 'a' || c == 'A' {
        10
    } else if c == 'b' || c == 'B' {
        11
    } else if c == 'c' || c == 'C' {
        12
    } else if c == 'd' || c == 'D' {
        13
    } else if c == 'e' || c == 'E' {
        14
    } else if c == 'f' || c == 'F' {
        15
    } else {
        16
    }
}

pub open spec fn is_hex_digit(c: char) -> bool {
    hex_val(c) < 16
}

pub fn dec_val_of(c: char) -> (r: u8)
    ensures
        r as nat == dec_val(c),
{
    match c {
        '0' => 0,
        '1' => 1,
        '2' => 2,
        '3' => 3,
        '4' => 4,
        '5' => 5,
        '6' => 6,
        '7' => 7,
        '8' => 8,
        '9' => 9,
        _ => 10,
    }
}

pub fn hex_val_of(c: char) -> (r: u8)
    ensures
        r as nat == hex_val(c),
{
    match c {
        '0' => 0,
        '1' => 1,
        '2' => 2,
        '3' => 3,
        '4' => 4,
        '5' => 5,
        '6' => 6,
        '7' => 7,
        '8' => 8,
        '9' => 9,
        'a' | 'A' => 10,
        'b' | 'B' => 11,
        'c' | 'C' => 12,
        'd' | 'D' => 13,
        'e' | 'E' => 14,
        'f' | 'F' => 15,
        _ => 16,
    }
}

// ---------------------------------------------------------------------------
// Numerals: sequences of digits and their values
// ---------------------------------------------------------------------------
pub open spec fn all_dec_digits(s: Seq<char>) -> bool {
    forall|i: int| 0 <= i < s.len() ==> is_dec_digit(#[trigger] s[i])
}

pub open spec fn all_hex_digits(s: Seq<char>) -> bool {
    forall|i: int| 0 <= i < s.len() ==> is_hex_digit(#[trigger] s[i])
}

/// The number a sequence of decimal digits denotes, most significant first.
pub open spec fn dec_num(s: Seq<char>) -> nat
    decreases s.len(),
{
    if s.len() == 0 {
        0
    } else {
        dec_num(s.drop_last()) * 10 + dec_val(s.last())
    }
}

/// The number a sequence of hexadecimal digits denotes, most significant
/// first.
pub open spec fn hex_num(s: Seq<char>) -> nat
    decreases s.len(),
{
    if s.len() == 0 {
        0
    } else {
        hex_num(s.drop_last()) * 16 + hex_val(s.last())
    }
}

pub proof fn lemma_dec_num_step(s: Seq<char>, i: int)
    requires
        0 <= i < s.len(),
    ensures
        dec_num(s.take(i + 1)) == dec_num(s.take(i)) * 10 + dec_val(s[i]),
{
    assert(s.take(i + 1).drop_last() =~= s.take(i));
    assert(s.take(i + 1).last() == s[i]);
}

pub proof fn lemma_hex_num_step(s: Seq<char>, i: int)
    requires
        0 <= i < s.len(),
    ensures
        hex_num(s.take(i + 1)) == hex_num(s.take(i)) * 16 + hex_val(s[i]),
{
    assert(s.take(i + 1).drop_last() =~= s.take(i));
    assert(s.take(i + 1).last() == s[i]);
}

/// A digit prefix never denotes more than the whole numeral.
proof fn lemma_dec_num_prefix(s: Seq<char>, i: int)
    requires
        0 <= i <= s.len(),
    ensures
        dec_num(s.take(i)) <= dec_num(s),
    decreases s.len(),
{
    if i < s.len() {
        assert(s.drop_last().take(i) =~= s.take(i));
        lemma_dec_num_prefix(s.drop_last(), i);
        assert(s.take(s.len() as int) =~= s);
    } else {
        assert(s.take(i) =~= s);
    }
}

proof fn lemma_hex_num_prefix(s: Seq<char>, i: int)
    requires
        0 <= i <= s.len(),
    ensures
        hex_num(s.take(i)) <= hex_num(s),
    decreases s.len(),
{
    if i < s.len() {
        assert(s.drop_last().take(i) =~= s.take(i));
        lemma_hex_num_prefix(s.drop_last(), i);
        assert(s.take(s.len() as int) =~= s);
    } else {
        assert(s.take(i) =~= s);
    }
}

/// Value bounds by numeral length.
pub proof fn lemma_dec_num_bound(s: Seq<char>)
    requires
        all_dec_digits(s),
    ensures
        s.len() <= 1 ==> dec_num(s) < 10,
        s.len() <= 2 ==> dec_num(s) < 100,
        s.len() <= 3 ==> dec_num(s) < 1000,
    decreases s.len(),
{
    if s.len() > 0 {
        assert(all_dec_digits(s.drop_last())) by {
            assert(forall|j: int|
                0 <= j < s.len() - 1 ==> #[trigger] s.drop_last()[j] == s[j]);
        }
        lemma_dec_num_bound(s.drop_last());
        assert(dec_val(s.last()) < 10);
    }
}

pub proof fn lemma_hex_num_bound(s: Seq<char>)
    requires
        all_hex_digits(s),
    ensures
        s.len() <= 1 ==> hex_num(s) < 16,
        s.len() <= 2 ==> hex_num(s) < 256,
        s.len() <= 3 ==> hex_num(s) < 4096,
        s.len() <= 4 ==> hex_num(s) < 65536,
    decreases s.len(),
{
    if s.len() > 0 {
        assert(all_hex_digits(s.drop_last())) by {
            assert(forall|j: int|
                0 <= j < s.len() - 1 ==> #[trigger] s.drop_last()[j] == s[j]);
        }
        lemma_hex_num_bound(s.drop_last());
        assert(hex_val(s.last()) < 16);
    }
}

/// No character of `s` satisfies `p`.
pub open spec fn has_none(s: Seq<char>, p: spec_fn(char) -> bool) -> bool {
    forall|j: int| 0 <= j < s.len() ==> !p(#[trigger] s[j])
}

pub proof fn lemma_has_none_concat(a: Seq<char>, b: Seq<char>, p: spec_fn(char) -> bool)
    requires
        has_none(a, p),
        has_none(b, p),
    ensures
        has_none(a + b, p),
{
    assert forall|j: int| 0 <= j < (a + b).len() implies !p(#[trigger] (a + b)[j]) by {
        if j < a.len() {
            assert((a + b)[j] == a[j]);
        } else {
            assert((a + b)[j] == b[j - a.len()]);
        }
    }
}

// ---------------------------------------------------------------------------
// Parsing numbers
// ---------------------------------------------------------------------------
/// A non-negative decimal integer as `str::parse::<u64>` reads it: an
/// optional leading `+`, then at least one digit, value within `u64`.
pub open spec fn parse_u64_spec(s: Seq<char>) -> Option<u64> {
    let t = if s.len() > 0 && s[0] == '+' {
        s.drop_first()
    } else {
        s
    };
    if t.len() > 0 && all_dec_digits(t) && dec_num(t) <= u64::MAX {
        Some(dec_num(t) as u64)
    } else {
        None
    }
}

/// A hexadecimal byte: at least one hex digit, value within `u8`.
pub open spec fn parse_u8_hex_spec(s: Seq<char>) -> Option<u8> {
    if s.len() > 0 && all_hex_digits(s) && hex_num(s) <= u8::MAX {
        Some(hex_num(s) as u8)
    } else {
        None
    }
}

/// Reads the digit run `s@.subrange(from, to)` as a decimal number, failing
/// on a non-digit or on overflow past `u64`.
fn parse_dec_run(s: &str, from: usize, to: usize) -> (r: Option<u64>)
    requires
        from <= to <= s@.len(),
    ensures
        (all_dec_digits(s@.subrange(from as int, to as int)) && dec_num(
            s@.subrange(from as int, to as int),
        ) <= u64::MAX) ==> r == Some((dec_num(s@.subrange(from as int, to as int)) as u64)),
        r is Some ==> all_dec_digits(s@.subrange(from as int, to as int)) && dec_num(
            s@.subrange(from as int, to as int),
        ) == r->0 as nat,
{
    let ghost t = s@.subrange(from as int, to as int);
    let mut acc: u64 = 0;
    let mut i: usize = from;
    while i < to
        invariant
            from <= i <= to <= s@.len(),
            t == s@.subrange(from as int, to as int),
            all_dec_digits(t.take(i - from)),
            acc as nat == dec_num(t.take(i - from)),
        decreases to - i,
    {
        let c = s.get_char(i);
        assert(t[i - from] == c);
        let d = dec_val_of(c);
        if d >= 10 {
            assert(!is_dec_digit(t[i - from]));
            return None;
        }
        proof {
            lemma_dec_num_step(t, i - from);
        }
        if acc > (u64::MAX - d as u64) / 10 {
            proof {
                lemma_dec_num_prefix(t, i - from + 1);
                assert(dec_num(t.take(i - from + 1)) > u64::MAX);
            }
            return None;
        }
        acc = acc * 10 + d as u64;
        i = i + 1;
    }
    assert(t.take(to - from) =~= t);
    Some(acc)
}

/// Decimal integer parse matching `str::parse::<u64>` on non-negative input.
pub fn parse_u64(s: &str) -> (r: Option<u64>)
    ensures
        r == parse_u64_spec(s@),
{
    let n = s.unicode_len();
    let start: usize = if n > 0 && s.get_char(0) == '+' {
        1
    } else {
        0
    };
    let ghost t = if s@.len() > 0 && s@[0] == '+' {
        s@.drop_first()
    } else {
        s@
    };
    assert(t =~= s@.subrange(start as int, n as int));
    if start == n {
        return None;
    }
    parse_dec_run(s, start, n)
}

/// Hexadecimal byte parse: the value of `u8::from_str_radix(s, 16)` where
/// the input is a plain hex numeral, `None` on anything else.
pub fn parse_u8_hex(s: &str) -> (r: Option<u8>)
    ensures
        r == parse_u8_hex_spec(s@),
{
    let n = s.unicode_len();
    if n == 0 {
        return None;
    }
    let mut acc: u64 = 0;
    let mut i: usize = 0;
    while i < n
        invariant
            0 <= i <= n,
            n as nat == s@.len(),
            all_hex_digits(s@.take(i as int)),
            acc as nat == hex_num(s@.take(i as int)),
            acc <= u8::MAX,
        decreases n - i,
    {
        let c = s.get_char(i);
        let d = hex_val_of(c);
        if d >= 16 {
            assert(!is_hex_digit(s@[i as int]));
            return None;
        }
        proof {
            lemma_hex_num_step(s@, i as int);
        }
        if acc > ((u8::MAX as u64) - d as u64) / 16 {
            proof {
                lemma_hex_num_prefix(s@, i as int + 1);
                assert(hex_num(s@.take(i as int + 1)) > u8::MAX);
            }
            return None;
        }
        acc = acc * 16 + d as u64;
        i = i + 1;
    }
    assert(s@.take(n as int) =~= s@);
    Some(acc as u8)
}

// ---------------------------------------------------------------------------
// Formatting numbers
// ---------------------------------------------------------------------------
/// The decimal digit character for `d < 10`.
pub open spec fn dec_char(d: nat) -> char {
    if d == 0 {
        '0'
    } else if d == 1 {
        '1'
    } else if d == 2 {
        '2'
    } else if d == 3 {
        '3'
    } else if d == 4 {
        '4'
    } else if d == 5 {
        '5'
    } else if d == 6 {
        '6'
    } else if d == 7 {
        '7'
    } else if d == 8 {
        '8'
    } else {
        '9'
    }
}

/// The lowercase hexadecimal digit character for `d < 16`.
pub open spec fn hex_char(d: nat) -> char {
    if d < 10 {
        dec_char(d)
    } else if d == 10 {
        'a'
    } else if d == 11 {
        'b'
    } else if d == 12 {
        'c'
    } else if d == 13 {
        'd'
    } else if d == 14 {
        'e'
    } else {
        'f'
    }
}

/// Decimal text of `n`, without leading zeros (just "0" for zero).
pub open spec fn dec_text(n: nat) -> Seq<char>
    decreases n,
{
    if n < 10 {
        seq![dec_char(n)]
    } else {
        dec_text(n / 10) + seq![dec_char(n % 10)]
    }
}

/// Lowercase hexadecimal text of `n`, without leading zeros.
pub open spec fn hex_text(n: nat) -> Seq<char>
    decreases n,
{
    if n < 16 {
        seq![hex_char(n)]
    } else {
        hex_text(n / 16) + seq![hex_char(n % 16)]
    }
}

pub proof fn lemma_dec_text_num(n: nat)
    ensures
        all_dec_digits(dec_text(n)),
        dec_num(dec_text(n)) == n,
        n < 10 ==> dec_text(n).len() == 1,
        n < 100 ==> dec_text(n).len() <= 2,
        n < 1000 ==> dec_text(n).len() <= 3,
        n >= 10 ==> dec_text(n)[0] != '0',
    decreases n,
{
    if n < 10 {
        let t = dec_text(n);
        assert(t == seq![dec_char(n)]);
        assert(t.drop_last() =~= Seq::<char>::empty());
        assert(dec_num(Seq::<char>::empty()) == 0);
        assert(dec_num(t) == dec_num(t.drop_last()) * 10 + dec_val(t.last()));
        assert(dec_val(dec_char(n)) == n);
    } else {
        lemma_dec_text_num(n / 10);
        let t = dec_text(n);
        assert(t.drop_last() =~= dec_text(n / 10));
        assert(t.last() == dec_char(n % 10));
        assert(dec_val(dec_char(n % 10)) == n % 10);
        assert(dec_num(t) == dec_num(t.drop_last()) * 10 + dec_val(t.last()));
        assert(dec_num(t) == (n / 10) * 10 + n % 10);
        assert(forall|i: int|
            0 <= i < t.len() ==> is_dec_digit(#[trigger] t[i]) == (if i < t.len() - 1 {
                is_dec_digit(dec_text(n / 10)[i])
            } else {
                is_dec_digit(dec_char(n % 10))
            }));
    }
}

pub proof fn lemma_hex_text_num(n: nat)
    ensures
        all_hex_digits(hex_text(n)),
        hex_num(hex_text(n)) == n,
        n < 16 ==> hex_text(n).len() == 1,
        n < 256 ==> hex_text(n).len() <= 2,
        n < 4096 ==> hex_text(n).len() <= 3,
        n < 65536 ==> hex_text(n).len() <= 4,
    decreases n,
{
    if n < 16 {
        let t = hex_text(n);
        assert(t == seq![hex_char(n)]);
        assert(t.drop_last() =~= Seq::<char>::empty());
        assert(hex_num(Seq::<char>::empty()) == 0);
        assert(hex_num(t) == hex_num(t.drop_last()) * 16 + hex_val(t.last()));
        assert(hex_val(hex_char(n)) == n);
    } else {
        lemma_hex_text_num(n / 16);
        let t = hex_text(n);
        assert(t.drop_last() =~= hex_text(n / 16));
        assert(t.last() == hex_char(n % 16));
        assert(hex_val(hex_char(n % 16)) == n % 16);
        assert(hex_num(t) == hex_num(t.drop_last()) * 16 + hex_val(t.last()));
        assert(hex_num(t) == (n / 16) * 16 + n % 16);
        assert(forall|i: int|
            0 <= i < t.len() ==> is_hex_digit(#[trigger] t[i]) == (if i < t.len() - 1 {
                is_hex_digit(hex_text(n / 16)[i])
            } else {
                is_hex_digit(hex_char(n % 16))
            }));
    }
}

fn dec_char_str(d: u8) -> (r: &'static str)
    requires
        d < 10,
    ensures
        r@ == seq![dec_char(d as nat)],
{
    let r: &'static str = match d {
        0 => "0",
        1 => "1",
        2 => "2",
        3 => "3",
        4 => "4",
        5 => "5",
        6 => "6",
        7 => "7",
        8 => "8",
        _ => "9",
    };
    proof {
        reveal_strlit("0");
        reveal_strlit("1");
        reveal_strlit("2");
        reveal_strlit("3");
        reveal_strlit("4");
        reveal_strlit("5");
        reveal_strlit("6");
        reveal_strlit("7");
        reveal_strlit("8");
        reveal_strlit("9");
        assert(r@ =~= seq![dec_char(d as nat)]);
    }
    r
}

fn hex_char_str(d: u8) -> (r: &'static str)
    requires
        d < 16,
    ensures
        r@ == seq![hex_char(d as nat)],
{
    if d < 10 {
        dec_char_str(d)
    } else {
        let r: &'static str = match d {
            10 => "a",
            11 => "b",
            12 => "c",
            13 => "d",
            14 => "e",
            _ => "f",
        };
        proof {
            reveal_strlit("a");
            reveal_strlit("b");
            reveal_strlit("c");
            reveal_strlit("d");
            reveal_strlit("e");
            reveal_strlit("f");
            assert(r@ =~= seq![hex_char(d as nat)]);
        }
        r
    }
}

/// Decimal text of a byte, as `u8`'s display writes it.
pub fn u8_to_dec(n: u8) -> (r: String)
    ensures
        r@ == dec_text(n as nat),
{
    if n < 10 {
        String::from_str(dec_char_str(n))
    } else if n < 100 {
        assert(dec_text((n / 10) as nat) =~= seq![dec_char((n / 10) as nat)]);
        assert(dec_text(n as nat) =~= dec_text((n / 10) as nat) + seq![dec_char((n % 10) as nat)]);
        String::from_str(dec_char_str(n / 10)).concat(dec_char_str(n % 10))
    } else {
        assert(n as nat / 10 / 10 == n as nat / 100) by (nonlinear_arith);
        assert(dec_text((n / 100) as nat) =~= seq![dec_char((n / 100) as nat)]);
        assert(dec_text((n / 10) as nat) =~= dec_text((n / 100) as nat) + seq![
            dec_char((n / 10 % 10) as nat),
        ]);
        assert(dec_text(n as nat) =~= dec_text((n / 10) as nat) + seq![dec_char((n % 10) as nat)]);
        String::from_str(dec_char_str(n / 100)).concat(dec_char_str(n / 10 % 10)).concat(
            dec_char_str(n % 10),
        )
    }
}

/// Lowercase hexadecimal text of a 16-bit group, without leading zeros.
pub fn u16_to_hex(n: u16) -> (r: String)
    ensures
        r@ == hex_text(n as nat),
{
    if n < 16 {
        String::from_str(hex_char_str(n as u8))
    } else if n < 256 {
        assert(hex_text((n / 16) as nat) =~= seq![hex_char((n / 16) as nat)]);
        assert(hex_text(n as nat) =~= hex_text((n / 16) as nat) + seq![hex_char((n % 16) as nat)]);
        String::from_str(hex_char_str((n / 16) as u8)).concat(hex_char_str((n % 16) as u8))
    } else if n < 4096 {
        assert(n as nat / 16 / 16 == n as nat / 256) by (nonlinear_arith);
        assert(hex_text((n / 256) as nat) =~= seq![hex_char((n / 256) as nat)]);
        assert(hex_text((n / 16) as nat) =~= hex_text((n / 256) as nat) + seq![
            hex_char((n / 16 % 16) as nat),
        ]);
        assert(hex_text(n as nat) =~= hex_text((n / 16) as nat) + seq![hex_char((n % 16) as nat)]);
        String::from_str(hex_char_str((n / 256) as u8)).concat(
            hex_char_str((n / 16 % 16) as u8),
        ).concat(hex_char_str((n % 16) as u8))
    } else {
        assert(n as nat / 16 / 16 == n as nat / 256) by (nonlinear_arith);
        assert(n as nat / 256 / 16 == n as nat / 4096) by (nonlinear_arith);
        assert(hex_text((n / 4096) as nat) =~= seq![hex_char((n / 4096) as nat)]);
        assert(hex_text((n / 256) as nat) =~= hex_text((n / 4096) as nat) + seq![
            hex_char((n / 256 % 16) as nat),
        ]);
        assert(hex_text((n / 16) as nat) =~= hex_text((n / 256) as nat) + seq![
            hex_char((n / 16 % 16) as nat),
        ]);
        assert(hex_text(n as nat) =~= hex_text((n / 16) as nat) + seq![hex_char((n % 16) as nat)]);
        String::from_str(hex_char_str((n / 4096) as u8)).concat(
            hex_char_str((n / 256 % 16) as u8),
        ).concat(hex_char_str((n / 16 % 16) as u8)).concat(hex_char_str((n % 16) as u8))
    }
}

/// Exact character-for-character string comparison.
pub fn str_eq(a: &str, b: &str) -> (r: bool)
    ensures
        r == (a@ == b@),
{
    let sa = String::from_str(a);
    let sb = String::from_str(b);
    sa.eq(&sb)
}

// ---------------------------------------------------------------------------
// Splitting
// ---------------------------------------------------------------------------
/// The views of a vector of strings.
pub open spec fn views_of(v: Seq<String>) -> Seq<Seq<char>> {
    v.map_values(|s: String| s@)
}

/// Split `s` at every character satisfying `p`, as `str::split` does: the
/// empty input gives one empty part, and every separator ends a part.
pub open spec fn split_when(s: Seq<char>, p: spec_fn(char) -> bool) -> Seq<Seq<char>>
    decreases s.len(),
{
    if s.len() == 0 {
        seq![Seq::<char>::empty()]
    } else if p(s[0]) {
        seq![Seq::<char>::empty()] + split_when(s.drop_first(), p)
    } else {
        let rest = split_when(s.drop_first(), p);
        seq![seq![s[0]] + rest[0]] + rest.drop_first()
    }
}

pub open spec fn eq_char(sep: char) -> spec_fn(char) -> bool {
    |c: char| c == sep
}

/// Split at one separator character, as `str::split(sep)`.
pub open spec fn split_on(s: Seq<char>, sep: char) -> Seq<Seq<char>> {
    split_when(s, eq_char(sep))
}

pub proof fn lemma_split_when_len(s: Seq<char>, p: spec_fn(char) -> bool)
    ensures
        split_when(s, p).len() >= 1,
    decreases s.len(),
{
    if s.len() > 0 && !p(s[0]) {
        lemma_split_when_len(s.drop_first(), p);
    }
}

/// Peeling a separator-free prefix of length `i` off the front: the first
/// part starts with that prefix, the rest is unchanged.
proof fn lemma_split_when_peel(s: Seq<char>, p: spec_fn(char) -> bool, i: int)
    requires
        0 <= i <= s.len(),
        forall|j: int| 0 <= j < i ==> !p(#[trigger] s[j]),
    ensures
        split_when(s, p) == seq![s.take(i) + split_when(s.skip(i), p)[0]] + split_when(
            s.skip(i),
            p,
        ).drop_first(),
    decreases i,
{
    lemma_split_when_len(s.skip(i), p);
    if i == 0 {
        assert(s.skip(0) =~= s);
        assert(s.take(0) + split_when(s, p)[0] =~= split_when(s, p)[0]);
        lemma_split_when_len(s, p);
        assert(split_when(s, p) =~= seq![split_when(s, p)[0]] + split_when(s, p).drop_first());
    } else {
        let d = s.drop_first();
        lemma_split_when_peel(d, p, i - 1);
        assert(d.skip(i - 1) =~= s.skip(i));
        assert(d.take(i - 1) =~= s.take(i).drop_first());
        let rest = split_when(d, p);
        assert(rest[0] == d.take(i - 1) + split_when(s.skip(i), p)[0]);
        assert(seq![s[0]] + rest[0] =~= s.take(i) + split_when(s.skip(i), p)[0]);
        assert(rest.drop_first() =~= split_when(s.skip(i), p).drop_first());
    }
}

/// A separator-free sequence is a single part.
pub proof fn lemma_split_when_free(s: Seq<char>, p: spec_fn(char) -> bool)
    requires
        forall|j: int| 0 <= j < s.len() ==> !p(#[trigger] s[j]),
    ensures
        split_when(s, p) == seq![s],
{
    lemma_split_when_peel(s, p, s.len() as int);
    assert(s.skip(s.len() as int) =~= Seq::<char>::empty());
    assert(s.take(s.len() as int) =~= s);
    assert(split_when(Seq::<char>::empty(), p) == seq![Seq::<char>::empty()]);
    assert(s + Seq::<char>::empty() =~= s);
    assert(seq![s] + split_when(Seq::<char>::empty(), p).drop_first() =~= seq![s]);
}

/// Splitting at the first separator, at position `i`.
pub proof fn lemma_split_when_first(s: Seq<char>, p: spec_fn(char) -> bool, i: int)
    requires
        0 <= i < s.len(),
        p(s[i]),
        forall|j: int| 0 <= j < i ==> !p(#[trigger] s[j]),
    ensures
        split_when(s, p) == seq![s.take(i)] + split_when(s.skip(i + 1), p),
{
    lemma_split_when_peel(s, p, i);
    let u = s.skip(i);
    assert(u[0] == s[i]);
    assert(u.drop_first() =~= s.skip(i + 1));
    assert(split_when(u, p) == seq![Seq::<char>::empty()] + split_when(s.skip(i + 1), p));
    assert(split_when(u, p)[0] =~= Seq::<char>::empty());
    assert(s.take(i) + split_when(u, p)[0] =~= s.take(i));
    assert(split_when(u, p).drop_first() =~= split_when(s.skip(i + 1), p));
}

fn is_space_char(c: char) -> (r: bool)
    ensures
        r == is_space(c),
{
    c == ' ' || c == '\t' || c == '\r' || c == '\n'
}

/// Whitespace, as it occurs in the inputs this crate reads.
pub open spec fn is_space(c: char) -> bool {
    c == ' ' || c == '\t' || c == '\r' || c == '\n'
}

pub open spec fn space_pred() -> spec_fn(char) -> bool {
    |c: char| is_space(c)
}

/// Split `s` at `sep`, as `str::split(sep)` yields its parts.
pub fn split_char(s: &str, sep: char) -> (parts: Vec<String>)
    ensures
        views_of(parts@) == split_on(s@, sep),
{
    let ghost p = eq_char(sep);
    let n = s.unicode_len();
    let mut parts: Vec<String> = Vec::new();
    let mut start: usize = 0;
    let mut i: usize = 0;
    proof {
        assert(s@.skip(0) =~= s@);
        assert(views_of(parts@) + split_when(s@, p) =~= split_when(s@, p));
    }
    while i < n
        invariant
            p == eq_char(sep),
            start <= i <= n,
            n as nat == s@.len(),
            forall|j: int| start <= j < i ==> !p(#[trigger] s@[j]),
            split_when(s@, p) == views_of(parts@) + split_when(s@.skip(start as int), p),
        decreases n - i,
    {
        let c = s.get_char(i);
        proof {
            assert(p(s@[i as int]) == (c == sep));
        }
        if c == sep {
            let part = String::from_str(s.substring_char(start, i));
            proof {
                let u = s@.skip(start as int);
                assert(u[i - start] == s@[i as int]);
                lemma_split_when_first(u, p, i - start);
                assert(u.take(i - start) =~= s@.subrange(start as int, i as int));
                assert(u.skip(i - start + 1) =~= s@.skip(i as int + 1));
                assert(views_of(parts@.push(part)) =~= views_of(parts@).push(part@));
                assert(views_of(parts@) + split_when(u, p) =~= views_of(parts@.push(part))
                    + split_when(s@.skip(i as int + 1), p));
            }
            parts.push(part);
            start = i + 1;
        }
        i = i + 1;
    }
    let part = String::from_str(s.substring_char(start, n));
    proof {
        let u = s@.skip(start as int);
        lemma_split_when_free(u, p);
        assert(u =~= s@.subrange(start as int, n as int));
        assert(views_of(parts@.push(part)) =~= views_of(parts@).push(part@));
        assert(views_of(parts@) + seq![u] =~= views_of(parts@.push(part)));
    }
    parts.push(part);
    parts
}

// ---------------------------------------------------------------------------
// Whitespace fields
// ---------------------------------------------------------------------------
pub open spec fn nonempty_pred() -> spec_fn(Seq<char>) -> bool {
    |w: Seq<char>| w.len() > 0
}

/// The non-empty fields of `s` under whitespace splitting, as
/// `str::split_whitespace` yields them.
pub open spec fn ws_fields(s: Seq<char>) -> Seq<Seq<char>> {
    split_when(s, space_pred()).filter(nonempty_pred())
}

/// The whitespace-separated fields of `s`, in order, empty runs dropped.
pub fn split_whitespace_fields(s: &str) -> (parts: Vec<String>)
    ensures
        views_of(parts@) == ws_fields(s@),
{
    let ghost p = space_pred();
    let ghost keep = nonempty_pred();
    let n = s.unicode_len();
    let mut parts: Vec<String> = Vec::new();
    let mut start: usize = 0;
    let mut i: usize = 0;
    let ghost mut raw: Seq<Seq<char>> = Seq::empty();
    proof {
        reveal(Seq::filter);
        assert(raw.filter(keep) =~= Seq::<Seq<char>>::empty());
        assert(views_of(parts@) =~= raw.filter(keep));
        assert(s@.skip(0) =~= s@);
        assert(raw + split_when(s@, p) =~= split_when(s@, p));
    }
    while i < n
        invariant
            p == space_pred(),
            keep == nonempty_pred(),
            start <= i <= n,
            n as nat == s@.len(),
            forall|j: int| start <= j < i ==> !p(#[trigger] s@[j]),
            split_when(s@, p) == raw + split_when(s@.skip(start as int), p),
            views_of(parts@) == raw.filter(keep),
        decreases n - i,
    {
        let c = s.get_char(i);
        proof {
            assert(p(s@[i as int]) == is_space(c));
        }
        if is_space_char(c) {
            proof {
                let u = s@.skip(start as int);
                assert(u[i - start] == s@[i as int]);
                lemma_split_when_first(u, p, i - start);
                assert(u.take(i - start) =~= s@.subrange(start as int, i as int));
                assert(u.skip(i - start + 1) =~= s@.skip(i as int + 1));
            }
            let ghost w = s@.subrange(start as int, i as int);
            proof {
                assert(raw.push(w).drop_last() =~= raw);
                assert(raw + split_when(s@.skip(start as int), p) =~= raw.push(w) + split_when(
                    s@.skip(i as int + 1),
                    p,
                ));
            }
            if i > start {
                let part = String::from_str(s.substring_char(start, i));
                proof {
                    reveal(Seq::filter);
                    assert(keep(w));
                    assert(raw.push(w).filter(keep) =~= raw.filter(keep).push(w));
                    assert(views_of(parts@.push(part)) =~= views_of(parts@).push(part@));
                }
                parts.push(part);
            } else {
                proof {
                    reveal(Seq::filter);
                    assert(!keep(w));
                    assert(raw.push(w).filter(keep) =~= raw.filter(keep));
                }
            }
            proof {
                raw = raw.push(w);
            }
            start = i + 1;
        }
        i = i + 1;
    }
    let ghost w = s@.subrange(start as int, n as int);
    proof {
        let u = s@.skip(start as int);
        lemma_split_when_free(u, p);
        assert(u =~= w);
        assert(raw + seq![u] =~= raw.push(w));
        assert(raw.push(w).drop_last() =~= raw);
        assert(split_when(s@, p) == raw.push(w));
    }
    if n > start {
        let part = String::from_str(s.substring_char(start, n));
        proof {
            reveal(Seq::filter);
            assert(keep(w));
            assert(raw.push(w).filter(keep) =~= raw.filter(keep).push(w));
            assert(views_of(parts@.push(part)) =~= views_of(parts@).push(part@));
        }
        parts.push(part);
    } else {
        proof {
            reveal(Seq::filter);
            assert(!keep(w));
            assert(raw.push(w).filter(keep) =~= raw.filter(keep));
        }
    }
    parts
}

// ---------------------------------------------------------------------------
// Trimming
// ---------------------------------------------------------------------------
/// Drop the longest prefix of characters satisfying `p`.
pub open spec fn drop_leading(s: Seq<char>, p: spec_fn(char) -> bool) -> Seq<char>
    decreases s.len(),
{
    if s.len() > 0 && p(s[0]) {
        drop_leading(s.drop_first(), p)
    } else {
        s
    }
}

/// Drop the longest suffix of characters satisfying `p`.
pub open spec fn drop_trailing(s: Seq<char>, p: spec_fn(char) -> bool) -> Seq<char>
    decreases s.len(),
{
    if s.len() > 0 && p(s.last()) {
        drop_trailing(s.drop_last(), p)
    } else {
        s
    }
}

/// What `str::trim` leaves of `s`.
pub open spec fn trim_spec(s: Seq<char>) -> Seq<char> {
    drop_trailing(drop_leading(s, space_pred()), space_pred())
}

pub proof fn lemma_drop_leading_at(s: Seq<char>, p: spec_fn(char) -> bool, k: int)
    requires
        0 <= k <= s.len(),
        forall|j: int| 0 <= j < k ==> p(#[trigger] s[j]),
        k < s.len() ==> !p(s[k]),
    ensures
        drop_leading(s, p) == s.skip(k),
    decreases k,
{
    if k == 0 {
        assert(s.skip(0) =~= s);
    } else {
        let d = s.drop_first();
        lemma_drop_leading_at(d, p, k - 1);
        assert(d.skip(k - 1) =~= s.skip(k));
    }
}

pub proof fn lemma_drop_trailing_at(s: Seq<char>, p: spec_fn(char) -> bool, k: int)
    requires
        0 <= k <= s.len(),
        forall|j: int| k <= j < s.len() ==> p(#[trigger] s[j]),
        k > 0 ==> !p(s[k - 1]),
    ensures
        drop_trailing(s, p) == s.take(k),
    decreases s.len() - k,
{
    if k == s.len() {
        assert(s.take(k) =~= s);
    } else {
        let d = s.drop_last();
        lemma_drop_trailing_at(d, p, k);
        assert(d.take(k) =~= s.take(k));
    }
}

/// Trimming leaves a space-free sequence unchanged.
pub proof fn lemma_trim_id(s: Seq<char>)
    requires
        has_none(s, space_pred()),
    ensures
        trim_spec(s) == s,
{
    let p = space_pred();
    if s.len() > 0 {
        assert(!p(s[0]));
        assert(!p(s.last()));
    }
}

/// What `str::trim` returns: `s` without leading and trailing whitespace.
pub fn trim_str(s: &str) -> (r: String)
    ensures
        r@ == trim_spec(s@),
{
    let ghost p = space_pred();
    let n = s.unicode_len();
    let mut lo: usize = 0;
    while lo < n && is_space_char(s.get_char(lo))
        invariant
            p == space_pred(),
            0 <= lo <= n,
            n as nat == s@.len(),
            forall|j: int| 0 <= j < lo ==> p(#[trigger] s@[j]),
        decreases n - lo,
    {
        proof {
            assert(p(s@[lo as int]) == is_space(s@[lo as int]));
        }
        lo = lo + 1;
    }
    proof {
        if lo < n {
            assert(p(s@[lo as int]) == is_space(s@[lo as int]));
        }
        lemma_drop_leading_at(s@, p, lo as int);
    }
    let ghost mid = s@.skip(lo as int);
    let mut hi: usize = n;
    while hi > lo && is_space_char(s.get_char(hi - 1))
        invariant
            p == space_pred(),
            lo <= hi <= n,
            n as nat == s@.len(),
            forall|j: int| hi <= j < n ==> p(#[trigger] s@[j]),
        decreases hi,
    {
        proof {
            assert(p(s@[hi - 1]) == is_space(s@[hi - 1]));
        }
        hi = hi - 1;
    }
    proof {
        assert forall|j: int| hi - lo <= j < mid.len() implies p(#[trigger] mid[j]) by {
            assert(mid[j] == s@[j + lo as int]);
        }
        if hi > lo {
            assert(mid[hi - lo - 1] == s@[hi - 1]);
            assert(p(s@[hi - 1]) == is_space(s@[hi - 1]));
        }
        lemma_drop_trailing_at(mid, p, hi - lo);
        assert(mid.take(hi - lo) =~= s@.subrange(lo as int, hi as int));
    }
    String::from_str(s.substring_char(lo, hi))
}

pub open spec fn open_paren_pred() -> spec_fn(char) -> bool {
    |c: char| c == '('
}

pub open spec fn close_paren_pred() -> spec_fn(char) -> bool {
    |c: char| c == ')'
}

/// The batch text after `str::trim`, `trim_start_matches('(')` and
/// `trim_end_matches(')')`: outer whitespace, then any run of opening and
/// closing parentheses, stripped.
pub open spec fn batch_core(s: Seq<char>) -> Seq<char> {
    drop_trailing(drop_leading(trim_spec(s), open_paren_pred()), close_paren_pred())
}

/// Strips whitespace and the optional surrounding parentheses off one batch.
pub fn normalize_batch(s: &str) -> (r: String)
    ensures
        r@ == batch_core(s@),
{
    let t = trim_str(s);
    let ghost popen = open_paren_pred();
    let ghost pclose = close_paren_pred();
    let n = t.as_str().unicode_len();
    let mut lo: usize = 0;
    while lo < n && t.as_str().get_char(lo) == '('
        invariant
            popen == open_paren_pred(),
            0 <= lo <= n,
            n as nat == t@.len(),
            forall|j: int| 0 <= j < lo ==> popen(#[trigger] t@[j]),
        decreases n - lo,
    {
        proof {
            assert(popen(t@[lo as int]) == (t@[lo as int] == '('));
        }
        lo = lo + 1;
    }
    proof {
        if lo < n {
            assert(popen(t@[lo as int]) == (t@[lo as int] == '('));
        }
        lemma_drop_leading_at(t@, popen, lo as int);
    }
    let ghost mid = t@.skip(lo as int);
    let mut hi: usize = n;
    while hi > lo && t.as_str().get_char(hi - 1) == ')'
        invariant
            pclose == close_paren_pred(),
            lo <= hi <= n,
            n as nat == t@.len(),
            forall|j: int| hi <= j < n ==> pclose(#[trigger] t@[j]),
        decreases hi,
    {
        proof {
            assert(pclose(t@[hi - 1]) == (t@[hi - 1] == ')'));
        }
        hi = hi - 1;
    }
    proof {
        assert forall|j: int| hi - lo <= j < mid.len() implies pclose(#[trigger] mid[j]) by {
            assert(mid[j] == t@[j + lo as int]);
        }
        if hi > lo {
            assert(mid[hi - lo - 1] == t@[hi - 1]);
            assert(pclose(t@[hi - 1]) == (t@[hi - 1] == ')'));
        }
        lemma_drop_trailing_at(mid, pclose, hi - lo);
        assert(mid.take(hi - lo) =~= t@.subrange(lo as int, hi as int));
    }
    String::from_str(t.as_str().substring_char(lo, hi))
}

} // verus!
