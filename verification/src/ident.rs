//! Opaque identifiers for documents and revisions, and the numeric PINs
//! that name relay jobs.

use vstd::prelude::*;
use vstd::string::StrSliceExecFns;
use vstd::string::StringExecFns;
use rand::Rng;

verus! {

/// A digit of an upper-case hexadecimal numeral.
pub open spec fn is_upper_hex(c: char) -> bool {
    ('0' <= c && c <= '9') || ('A' <= c && c <= 'F')
}

/// The shape of an identifier: 32 upper-case hexadecimal digits.
pub open spec fn is_id(s: Seq<char>) -> bool {
    s.len() == 32 && forall|i: int| 0 <= i < 32 ==> is_upper_hex(#[trigger] s[i])
}

/// The character for a digit value below ten.
pub open spec fn digit_char(d: int) -> char {
    if d == 0 {
        '0'
    } else if d == 1 {
        '1'
    } else if d == 2 {
        '2'
    } else if d == 3 {
        '3'
    } else if d == 4 {
        '4'
    } else if d == 5 {
        '5'
    } else if d == 6 {
        '6'
    } else if d == 7 {
        '7'
    } else if d == 8 {
        '8'
    } else {
        '9'
    }
}

/// The decimal numeral of `n`, without leading zeros.
pub open spec fn decimal(n: nat) -> Seq<char>
    decreases n,
{
    if n < 10 {
        seq![digit_char(n as int)]
    } else {
        decimal(n / 10).push(digit_char((n % 10) as int))
    }
}

/// The smallest and the largest PIN.
pub const PIN_MIN: u32 = 100_000;

pub const PIN_MAX: u32 = 999_999;

/// The shape of a PIN: the decimal numeral of a number from `PIN_MIN` to
/// `PIN_MAX`.
pub open spec fn is_pin(s: Seq<char>) -> bool {
    exists|n: nat| PIN_MIN <= n <= PIN_MAX && s == decimal(n)
}

/// Every PIN has exactly six digits, the first of which is not zero.
pub proof fn law_pin_has_six_digits(n: nat)
    requires
        PIN_MIN <= n <= PIN_MAX,
    ensures
        decimal(n).len() == 6,
        decimal(n)[0] != '0',
        forall|i: int| 0 <= i < 6 ==> '0' <= #[trigger] decimal(n)[i] <= '9',
{
    reveal_with_fuel(decimal, 7);
    let s = decimal(n);
    assert(s.len() == 6);
    assert(s[0] == digit_char((n / 100_000) as int));
    assert(1 <= n / 100_000 <= 9);
    assert forall|i: int| 0 <= i < 6 implies '0' <= #[trigger] s[i] <= '9' by {
        lemma_digit_char_range((n / 100_000) as int);
        lemma_digit_char_range(((n / 10_000) % 10) as int);
        lemma_digit_char_range(((n / 1_000) % 10) as int);
        lemma_digit_char_range(((n / 100) % 10) as int);
        lemma_digit_char_range(((n / 10) % 10) as int);
        lemma_digit_char_range((n % 10) as int);
    }
}

proof fn lemma_digit_char_range(d: int)
    ensures
        '0' <= digit_char(d) <= '9',
{
}

/// A fresh identifier. It comes from `Uuid::new_v4`, which draws 16 random
/// bytes, written out by `Simple::encode_upper`: two upper-case hexadecimal
/// digits per byte and no hyphens. The contract claims that shape and
/// nothing about the value. (`new_v4` stops the program when the system
/// has no random bytes to give.)
#[verifier::external_body]
pub fn generate_id() -> (id: String)
    ensures
        is_id(id@),
{
    let mut buf = uuid::Uuid::encode_buffer();
    let id = uuid::Uuid::new_v4().to_simple().encode_upper(&mut buf);
    String::from(id)
}

/// A number drawn by `Rng::gen_range` on the thread's generator from the
/// closed range of PINs. The contract claims only that it lies in the range.
#[verifier::external_body]
fn random_pin_number() -> (n: u32)
    ensures
        PIN_MIN <= n <= PIN_MAX,
{
    rand::thread_rng().gen_range(100_000..=999_999)
}

fn digit_text(d: u32) -> (s: &'static str)
    requires
        d < 10,
    ensures
        s@ == seq![digit_char(d as int)],
{
    proof {
        reveal_strlit("0");
        reveal_strlit("1");
        reveal_strlit("2");
        reveal_strlit("3");
        reveal_strlit("4");
        reveal_strlit("5");
        reveal_strlit("6");
        reveal_strlit("7");
        reveal_strlit("8");
        reveal_strlit("9");
    }
    let s = if d == 0 {
        "0"
    } else if d == 1 {
        "1"
    } else if d == 2 {
        "2"
    } else if d == 3 {
        "3"
    } else if d == 4 {
        "4"
    } else if d == 5 {
        "5"
    } else if d == 6 {
        "6"
    } else if d == 7 {
        "7"
    } else if d == 8 {
        "8"
    } else {
        "9"
    };
    assert(s@ =~= seq![digit_char(d as int)]);
    s
}

/// The decimal numeral of `n`.
pub fn decimal_text(n: u32) -> (s: String)
    ensures
        s@ == decimal(n as nat),
    decreases n,
{
    if n < 10 {
        String::from_str(digit_text(n))
    } else {
        let mut s = decimal_text(n / 10);
        s.append(digit_text(n % 10));
        assert(s@ =~= decimal((n / 10) as nat).push(digit_char((n % 10) as int)));
        s
    }
}

/// A fresh PIN.
pub fn generate_pin() -> (pin: String)
    ensures
        is_pin(pin@),
{
    let number: u32 = random_pin_number();
    decimal_text(number)
}

/// The value of a decimal digit.
fn digit_value(c: char) -> (r: Option<u32>)
    ensures
        match r {
            Some(d) => d < 10 && c == digit_char(d as int),
            None => forall|d: int| 0 <= d < 10 ==> c != digit_char(d),
        },
{
    if c == '0' {
        Some(0)
    } else if c == '1' {
        Some(1)
    } else if c == '2' {
        Some(2)
    } else if c == '3' {
        Some(3)
    } else if c == '4' {
        Some(4)
    } else if c == '5' {
        Some(5)
    } else if c == '6' {
        Some(6)
    } else if c == '7' {
        Some(7)
    } else if c == '8' {
        Some(8)
    } else if c == '9' {
        Some(9)
    } else {
        None
    }
}

/// The numeral of ten times `q` plus the digit `d` is the numeral of `q`
/// followed by the digit.
proof fn lemma_decimal_step(q: nat, d: nat)
    requires
        q >= 1,
        d < 10,
    ensures
        decimal(q * 10 + d) == decimal(q).push(digit_char(d as int)),
{
    let n = q * 10 + d;
    assert(n / 10 == q);
    assert(n % 10 == d);
}

proof fn lemma_decimal_len(n: nat)
    ensures
        decimal(n).len() >= 1,
        n >= 10 ==> decimal(n).len() >= 2,
    decreases n,
{
    if n >= 10 {
        lemma_decimal_len(n / 10);
    }
}

proof fn lemma_digit_char_injective(a: int, b: int)
    requires
        0 <= a < 10,
        0 <= b < 10,
        digit_char(a) == digit_char(b),
    ensures
        a == b,
{
}

/// Two numbers with the same numeral are the same number.
pub proof fn law_decimal_injective(a: nat, b: nat)
    requires
        decimal(a) == decimal(b),
    ensures
        a == b,
    decreases a,
{
    lemma_decimal_len(a);
    lemma_decimal_len(b);
    if a < 10 {
        assert(b < 10);
        assert(decimal(a)[0] == digit_char(a as int));
        assert(decimal(b)[0] == digit_char(b as int));
        lemma_digit_char_injective(a as int, b as int);
    } else {
        assert(b >= 10);
        let x = decimal(a / 10);
        let y = decimal(b / 10);
        let da = digit_char((a % 10) as int);
        let db = digit_char((b % 10) as int);
        assert(x.push(da).drop_last() =~= x);
        assert(y.push(db).drop_last() =~= y);
        assert(x.push(da).last() == da);
        assert(y.push(db).last() == db);
        law_decimal_injective(a / 10, b / 10);
        lemma_digit_char_injective((a % 10) as int, (b % 10) as int);
    }
}

proof fn lemma_digit_in_range(c: char)
    requires
        '0' <= c <= '9',
    ensures
        exists|d: int| 0 <= d < 10 && c == digit_char(d),
{
    let d = c as int - '0' as int;
    assert(0 <= d < 10);
    assert(c == digit_char(d));
}

/// The number that the PIN `pin` is the numeral of, if it is a PIN.
pub fn parse_pin(pin: &str) -> (r: Option<u32>)
    ensures
        match r {
            Some(n) => PIN_MIN <= n <= PIN_MAX && pin@ == decimal(n as nat),
            None => !is_pin(pin@),
        },
{
    proof {
        if is_pin(pin@) {
            let n = choose|n: nat| PIN_MIN <= n <= PIN_MAX && pin@ == decimal(n);
            law_pin_has_six_digits(n);
            lemma_digit_in_range(pin@[0]);
            lemma_digit_in_range(pin@[1]);
            lemma_digit_in_range(pin@[2]);
            lemma_digit_in_range(pin@[3]);
            lemma_digit_in_range(pin@[4]);
            lemma_digit_in_range(pin@[5]);
        }
    }
    if pin.unicode_len() != 6 {
        return None;
    }
    let d5 = match digit_value(pin.get_char(0)) {
        Some(d) => d,
        None => {
            return None;
        },
    };
    let d4 = match digit_value(pin.get_char(1)) {
        Some(d) => d,
        None => {
            return None;
        },
    };
    let d3 = match digit_value(pin.get_char(2)) {
        Some(d) => d,
        None => {
            return None;
        },
    };
    let d2 = match digit_value(pin.get_char(3)) {
        Some(d) => d,
        None => {
            return None;
        },
    };
    let d1 = match digit_value(pin.get_char(4)) {
        Some(d) => d,
        None => {
            return None;
        },
    };
    let d0 = match digit_value(pin.get_char(5)) {
        Some(d) => d,
        None => {
            return None;
        },
    };
    if d5 == 0 {
        return None;
    }
    let n1: u32 = d5 * 10 + d4;
    let n2: u32 = n1 * 10 + d3;
    let n3: u32 = n2 * 10 + d2;
    let n4: u32 = n3 * 10 + d1;
    let number: u32 = n4 * 10 + d0;
    proof {
        assert(decimal(d5 as nat) =~= seq![digit_char(d5 as int)]);
        lemma_decimal_step(d5 as nat, d4 as nat);
        lemma_decimal_step(n1 as nat, d3 as nat);
        lemma_decimal_step(n2 as nat, d2 as nat);
        lemma_decimal_step(n3 as nat, d1 as nat);
        lemma_decimal_step(n4 as nat, d0 as nat);
        assert(pin@ =~= decimal(number as nat));
    }
    Some(number)
}

} // verus!
