//! Register names: the reserved sigil, scope-qualified names `base@k`, and
//! the numbered registers that the lowering and the interpreter make up.

use vstd::prelude::*;
use vstd::string::*;

verus! {

/// A name is reserved when it starts with the sigil `%`. Reserved names are
/// never scope-renamed.
pub open spec fn is_reserved(name: Seq<char>) -> bool {
    name.len() > 0 && name[0] == '%'
}

/// Whether `name` starts with the reserved sigil.
pub fn is_reserved_name(name: &str) -> (b: bool)
    ensures
        b == is_reserved(name@),
{
    if name.unicode_len() == 0 {
        false
    } else {
        name.get_char(0) == '%'
    }
}

/// The character that writes the decimal digit `d`.
pub open spec fn digit_char(d: nat) -> char {
    if d == 0 {
        '0'
    } else if d == 1 {
        '1'
    } else if d == 2 {
        '2'
    } else if d == 3 {
        '3'
    } else if d == 4 {
        '4'
    } else if d == 5 {
        '5'
    } else if d == 6 {
        '6'
    } else if d == 7 {
        '7'
    } else if d == 8 {
        '8'
    } else {
        '9'
    }
}

/// The decimal numeral of `n`, most significant digit first, without
/// leading zeros.
pub open spec fn dec_digits(n: nat) -> Seq<char>
    decreases n,
{
    if n < 10 {
        seq![digit_char(n)]
    } else {
        dec_digits(n / 10).push(digit_char(n % 10))
    }
}

/// `base@k`: the `k`-th incarnation of the source name `base`.
pub open spec fn scoped_name(base: Seq<char>, k: nat) -> Seq<char> {
    (base + seq!['@']) + dec_digits(k)
}

/// `prefix` followed by the decimal numeral of `k`.
pub open spec fn numbered_name(prefix: Seq<char>, k: nat) -> Seq<char> {
    prefix + dec_digits(k)
}

/// `prefix`, then zeros, then the decimal numeral of `k`, the digits filled
/// up to `width` places.
pub open spec fn padded_name(prefix: Seq<char>, k: nat, width: nat) -> Seq<char> {
    let have = dec_digits(k).len();
    let fill = if width >= have {
        (width - have) as nat
    } else {
        0
    };
    (prefix + zeros(fill)) + dec_digits(k)
}

/// `n` zeros.
pub open spec fn zeros(n: nat) -> Seq<char> {
    Seq::new(n, |i: int| '0')
}

/// The return pointer.
pub open spec fn reg_rp() -> Seq<char> {
    "%RP"@
}

/// The stack pointer.
pub open spec fn reg_sp() -> Seq<char> {
    "%SP"@
}

/// The base pointer.
pub open spec fn reg_bp() -> Seq<char> {
    "%BP"@
}

/// The memory timestamp.
pub open spec fn reg_ts() -> Seq<char> {
    "%TS"@
}

/// The allocation cursor.
pub open spec fn reg_as() -> Seq<char> {
    "%AS"@
}

/// The return value; with a number behind it, the result of a call
/// inside an expression.
pub open spec fn reg_ret() -> Seq<char> {
    "%RET"@
}

/// The prefix of the registers that hand arguments over.
pub open spec fn reg_arg() -> Seq<char> {
    "%ARG"@
}

/// The prefix of the input registers of a block.
pub open spec fn reg_in() -> Seq<char> {
    "%i"@
}

/// The prefix of the output registers of a block.
pub open spec fn reg_out() -> Seq<char> {
    "%o"@
}

/// The names that the lowering reserves all start with the sigil.
pub proof fn lemma_registers_reserved()
    ensures
        is_reserved(reg_rp()),
        is_reserved(reg_sp()),
        is_reserved(reg_bp()),
        is_reserved(reg_ts()),
        is_reserved(reg_as()),
        is_reserved(reg_ret()),
        forall|k: nat| is_reserved(#[trigger] numbered_name(reg_ret(), k)),
        forall|k: nat| is_reserved(#[trigger] numbered_name(reg_arg(), k)),
        forall|k: nat, w: nat| is_reserved(#[trigger] padded_name(reg_in(), k, w)),
        forall|k: nat, w: nat| is_reserved(#[trigger] padded_name(reg_out(), k, w)),
{
    reveal_strlit("%RP");
    reveal_strlit("%SP");
    reveal_strlit("%BP");
    reveal_strlit("%TS");
    reveal_strlit("%AS");
    reveal_strlit("%RET");
    reveal_strlit("%ARG");
    reveal_strlit("%i");
    reveal_strlit("%o");
}

/// The one-character string that writes the digit `d`.
fn digit_str(d: usize) -> (s: &'static str)
    requires
        d < 10,
    ensures
        s@ == seq![digit_char(d as nat)],
{
    proof {
        reveal_strlit("0");
        reveal_strlit("1");
        reveal_strlit("2");
        reveal_strlit("3");
        reveal_strlit("4");
        reveal_strlit("5");
        reveal_strlit("6");
        reveal_strlit("7");
        reveal_strlit("8");
        reveal_strlit("9");
    }
    let s = if d == 0 {
        "0"
    } else if d == 1 {
        "1"
    } else if d == 2 {
        "2"
    } else if d == 3 {
        "3"
    } else if d == 4 {
        "4"
    } else if d == 5 {
        "5"
    } else if d == 6 {
        "6"
    } else if d == 7 {
        "7"
    } else if d == 8 {
        "8"
    } else {
        "9"
    };
    assert(s@ =~= seq![digit_char(d as nat)]);
    s
}

/// Appends the decimal numeral of `n` to `s`.
pub fn push_decimal(s: &mut String, n: usize)
    ensures
        final(s)@ == old(s)@ + dec_digits(n as nat),
    decreases n,
{
    if n >= 10 {
        push_decimal(s, n / 10);
    }
    s.append(digit_str(n % 10));
    assert(s@ =~= old(s)@ + dec_digits(n as nat));
}

/// The number of decimal digits of `n`.
pub fn decimal_width(n: usize) -> (w: usize)
    ensures
        w == dec_digits(n as nat).len(),
        1 <= w <= 20,
{
    let mut w: usize = 1;
    let mut m: usize = n;
    assert(m as nat * pow10((w - 1) as nat) == m) by (nonlinear_arith)
        requires
            pow10((w - 1) as nat) == 1,
    ;
    while m >= 10
        invariant
            1 <= w <= 20,
            dec_digits(n as nat).len() == dec_digits(m as nat).len() + w - 1,
            m as nat * pow10((w - 1) as nat) <= n,
        decreases m,
    {
        proof {
            lemma_pow10_step((w - 1) as nat);
            assert((m / 10) * (10 * pow10((w - 1) as nat)) <= m * pow10((w - 1) as nat))
                by (nonlinear_arith)
                requires
                    m >= 0,
                    pow10((w - 1) as nat) >= 0,
            ;
            if w == 20 {
                lemma_pow10_20();
                assert(m * pow10(19) >= 10 * pow10(19)) by (nonlinear_arith)
                    requires
                        m >= 10,
                        pow10(19) >= 0,
                ;
            }
        }
        m = m / 10;
        w = w + 1;
    }
    w
}

/// Ten to the power `k`.
pub open spec fn pow10(k: nat) -> nat
    decreases k,
{
    if k == 0 {
        1
    } else {
        10 * pow10((k - 1) as nat)
    }
}

proof fn lemma_pow10_step(k: nat)
    ensures
        pow10(k + 1) == 10 * pow10(k),
        pow10(k) >= 1,
    decreases k,
{
    if k > 0 {
        lemma_pow10_step((k - 1) as nat);
    }
}

proof fn lemma_pow10_20()
    ensures
        pow10(20) == 10 * pow10(19),
        pow10(20) > usize::MAX,
{
    reveal_with_fuel(pow10, 21);
    assert(pow10(20) == 100000000000000000000);
}

/// The scope-qualified name `base@k`.
pub fn scoped(base: &str, k: usize) -> (r: String)
    ensures
        r@ == scoped_name(base@, k as nat),
{
    proof {
        reveal_strlit("@");
    }
    let mut r = String::from_str(base);
    r.append("@");
    assert(r@ =~= base@ + seq!['@']);
    push_decimal(&mut r, k);
    r
}

/// `prefix` followed by the decimal numeral of `k`.
pub fn numbered(prefix: &str, k: usize) -> (r: String)
    ensures
        r@ == numbered_name(prefix@, k as nat),
{
    let mut r = String::from_str(prefix);
    push_decimal(&mut r, k);
    r
}

/// `prefix`, then the decimal numeral of `k` filled up with zeros to
/// `width` places.
pub fn padded(prefix: &str, k: usize, width: usize) -> (r: String)
    ensures
        r@ == padded_name(prefix@, k as nat, width as nat),
{
    let mut r = String::from_str(prefix);
    let have = decimal_width(k);
    let mut i: usize = have;
    assert(r@ =~= prefix@ + zeros(0));
    while i < width
        invariant
            have <= i,
            i <= width || i == have,
            r@ == prefix@ + zeros((i - have) as nat),
        decreases width - i,
    {
        proof {
            reveal_strlit("0");
        }
        r.append("0");
        i += 1;
        assert(r@ =~= prefix@ + zeros((i - have) as nat));
    }
    push_decimal(&mut r, k);
    r
}

} // verus!
