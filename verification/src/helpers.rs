//! Shared helpers: the error type, number parsing, indentation, the names
//! given to generated items, and bit masks.

use crate::text::{
    char_code, dec_digits, make_spaces, push_char, replace_char, replace_each, spaces, str_chars,
    u64_to_dec,
};
use vstd::prelude::*;

verus! {

/// The number of bits in a byte.
pub const BYTE_SIZE: u64 = 8;

/// The number of bytes in an instruction.
pub const INST_LENGTH: u64 = 4;

/// Why a translation stopped.
#[derive(Debug, PartialEq, Eq)]
pub enum Error {
    // Debugging information
    NoSuchDwarfFieldError,
    CouldNotFindDwarfChild,
    CouldNotFindType,
    /// No variable of this name is known.
    MissingVar(String),
    /// No function of this name is known.
    MissingFuncSig(String),
    // Translation
    TranslatorErr(String),
    /// The operands of an operator disagree in type, or do not fit it.
    TypeMismatch,
    /// The blocks at these addresses could not be ordered: they lie on a
    /// cycle of the control flow, or behind one.
    CycleInCFG(Vec<u64>),
    /// No block starts at this address.
    MissingBlock(u64),
    /// No block is the entry of a function of this name.
    MissingLabel(String),
    /// The instruction at this address lacks an operand that its mnemonic
    /// needs.
    MalformedInst(u64),
    /// Only 64-bit registers are supported.
    UnsupportedXlen(u64),
    // Contracts
    SpecParseError(String),
    /// A text that is not a numeral of the radix asked for, or whose value
    /// does not fit the integer type.
    InvalidNumber,
}

/// The mathematical value of an [`Error`].
pub enum ErrorView {
    NoSuchDwarfFieldError,
    CouldNotFindDwarfChild,
    CouldNotFindType,
    MissingVar(Seq<char>),
    MissingFuncSig(Seq<char>),
    TranslatorErr(Seq<char>),
    TypeMismatch,
    CycleInCFG(Seq<u64>),
    MissingBlock(u64),
    MissingLabel(Seq<char>),
    MalformedInst(u64),
    UnsupportedXlen(u64),
    SpecParseError(Seq<char>),
    InvalidNumber,
}

impl View for Error {
    type V = ErrorView;

    open spec fn view(&self) -> ErrorView {
        match self {
            Error::NoSuchDwarfFieldError => ErrorView::NoSuchDwarfFieldError,
            Error::CouldNotFindDwarfChild => ErrorView::CouldNotFindDwarfChild,
            Error::CouldNotFindType => ErrorView::CouldNotFindType,
            Error::MissingVar(s) => ErrorView::MissingVar(s@),
            Error::MissingFuncSig(s) => ErrorView::MissingFuncSig(s@),
            Error::TranslatorErr(s) => ErrorView::TranslatorErr(s@),
            Error::TypeMismatch => ErrorView::TypeMismatch,
            Error::CycleInCFG(v) => ErrorView::CycleInCFG(v@),
            Error::MissingBlock(a) => ErrorView::MissingBlock(*a),
            Error::MissingLabel(s) => ErrorView::MissingLabel(s@),
            Error::MalformedInst(a) => ErrorView::MalformedInst(*a),
            Error::UnsupportedXlen(x) => ErrorView::UnsupportedXlen(*x),
            Error::SpecParseError(s) => ErrorView::SpecParseError(s@),
            Error::InvalidNumber => ErrorView::InvalidNumber,
        }
    }
}

// =========================================================================
// Register width

/// Whether registers of `xlen` bits are supported: those of 64 bits are,
/// and no others.
pub fn supported_xlen(xlen: u64) -> (r: Result<(), Error>)
    ensures
        xlen == 64 ==> r is Ok,
        xlen != 64 ==> r == Err::<(), Error>(Error::UnsupportedXlen(xlen)),
{
    if xlen == 64 {
        Ok(())
    } else {
        Err(Error::UnsupportedXlen(xlen))
    }
}

// =========================================================================
// Numerals

/// The value of the character `c` as a digit of the radix `radix`, which is
/// 10 or 16; hexadecimal digits may be of either case.
pub open spec fn digit_value(c: char, radix: nat) -> Option<nat> {
    let v = c as int;
    if 48 <= v <= 57 {
        Some((v - 48) as nat)
    } else if radix == 16 && 97 <= v <= 102 {
        Some((v - 87) as nat)
    } else if radix == 16 && 65 <= v <= 70 {
        Some((v - 55) as nat)
    } else {
        None
    }
}

/// The value of a string of digits; `None` where a character is no digit.
/// The empty string has the value 0.
pub open spec fn digits_value(s: Seq<char>, radix: nat) -> Option<nat>
    decreases s.len(),
{
    if s.len() == 0 {
        Some(0nat)
    } else {
        match (digits_value(s.drop_last(), radix), digit_value(s.last(), radix)) {
            (Some(h), Some(d)) => Some(h * radix + d),
            _ => None,
        }
    }
}

/// The value of an unsigned numeral: digits, not empty, after an optional
/// plus sign, with a value that fits 64 bits.
pub open spec fn unsigned_value(s: Seq<char>, radix: nat) -> Option<u64> {
    let body = if s.len() > 0 && s[0] == '+' {
        s.drop_first()
    } else {
        s
    };
    if body.len() == 0 {
        None
    } else {
        match digits_value(body, radix) {
            Some(v) => if v <= u64::MAX {
                Some(v as u64)
            } else {
                None
            },
            None => None,
        }
    }
}

/// The value of a signed numeral: digits, not empty, after an optional
/// plus or minus sign, with a value that fits 64 bits.
pub open spec fn signed_value(s: Seq<char>, radix: nat) -> Option<i64> {
    let negative = s.len() > 0 && s[0] == '-';
    let body = if s.len() > 0 && (s[0] == '+' || s[0] == '-') {
        s.drop_first()
    } else {
        s
    };
    if body.len() == 0 {
        None
    } else {
        match digits_value(body, radix) {
            Some(v) => if negative {
                if v <= 0x8000_0000_0000_0000 {
                    Some((-(v as int)) as i64)
                } else {
                    None
                }
            } else {
                if v <= i64::MAX {
                    Some(v as i64)
                } else {
                    None
                }
            },
            None => None,
        }
    }
}

/// A string of digits is worth no less than any of its beginnings.
proof fn lemma_digits_value_grows(s: Seq<char>, radix: nat, k: int)
    requires
        radix == 10 || radix == 16,
        0 <= k <= s.len(),
        digits_value(s, radix) is Some,
    ensures
        digits_value(s.take(k), radix) is Some,
        digits_value(s.take(k), radix)->0 <= digits_value(s, radix)->0,
    decreases s.len() - k,
{
    if k == s.len() {
        assert(s.take(k) =~= s);
    } else {
        lemma_digits_value_grows(s, radix, k + 1);
        let t = s.take(k + 1);
        assert(t.drop_last() =~= s.take(k));
        let h = digits_value(s.take(k), radix);
        assert(h is Some);
        assert(h->0 <= h->0 * radix) by (nonlinear_arith)
            requires
                radix >= 1,
        ;
    }
}

/// A beginning that holds a character that is no digit spoils the string.
proof fn lemma_digits_value_none(s: Seq<char>, radix: nat, k: int)
    requires
        radix == 10 || radix == 16,
        0 <= k <= s.len(),
        digits_value(s.take(k), radix) is None,
    ensures
        digits_value(s, radix) is None,
    decreases s.len() - k,
{
    if k == s.len() {
        assert(s.take(k) =~= s);
    } else {
        let t = s.take(k + 1);
        assert(t.drop_last() =~= s.take(k));
        lemma_digits_value_none(s, radix, k + 1);
    }
}

/// The value of the digits of `cs` from `start` on, in radix 10 or 16,
/// where they are all digits and the value is at most `limit`.
fn parse_digits(cs: &Vec<char>, start: usize, radix: u64, limit: u64) -> (r: Option<u64>)
    requires
        radix == 10 || radix == 16,
        start <= cs.len(),
    ensures
        r is Some <==> digits_value(cs@.skip(start as int), radix as nat) is Some && digits_value(
            cs@.skip(start as int),
            radix as nat,
        )->0 <= limit,
        r is Some ==> r->0 == digits_value(cs@.skip(start as int), radix as nat)->0,
{
    let ghost body = cs@.skip(start as int);
    let mut acc: u64 = 0;
    let mut i: usize = start;
    assert(body.take(0) =~= Seq::<char>::empty());
    while i < cs.len()
        invariant
            radix == 10 || radix == 16,
            start <= i <= cs.len(),
            body == cs@.skip(start as int),
            digits_value(body.take(i - start), radix as nat) == Some(acc as nat),
            acc <= limit,
        decreases cs.len() - i,
    {
        let c = cs[i];
        let v = char_code(c);
        let ghost t = body.take(i - start + 1);
        proof {
            assert(t.drop_last() =~= body.take(i - start));
            assert(t.last() == c);
        }
        let d: u64 = if 48 <= v && v <= 57 {
            (v - 48) as u64
        } else if radix == 16 && 97 <= v && v <= 102 {
            (v - 87) as u64
        } else if radix == 16 && 65 <= v && v <= 70 {
            (v - 55) as u64
        } else {
            proof {
                assert(digits_value(t, radix as nat) is None);
                lemma_digits_value_none(body, radix as nat, i - start + 1);
            }
            return None;
        };
        assert(digit_value(c, radix as nat) == Some(d as nat));
        assert(digits_value(t, radix as nat) == Some((acc * radix + d) as nat));
        let next = match acc.checked_mul(radix) {
            Some(m) => m.checked_add(d),
            None => None,
        };
        match next {
            Some(n) => {
                if n > limit {
                    proof {
                        lemma_digits_value_grows_or_none(body, radix as nat, i - start + 1);
                    }
                    return None;
                }
                acc = n;
            },
            None => {
                proof {
                    lemma_digits_value_grows_or_none(body, radix as nat, i - start + 1);
                }
                return None;
            },
        }
        i += 1;
    }
    assert(body.take(cs.len() - start) =~= body);
    Some(acc)
}

/// Either a string of digits has no value, or it is worth no less than any
/// of its beginnings.
proof fn lemma_digits_value_grows_or_none(s: Seq<char>, radix: nat, k: int)
    requires
        radix == 10 || radix == 16,
        0 <= k <= s.len(),
    ensures
        digits_value(s, radix) is Some ==> digits_value(s.take(k), radix) is Some && digits_value(
            s.take(k),
            radix,
        )->0 <= digits_value(s, radix)->0,
{
    if digits_value(s, radix) is Some {
        lemma_digits_value_grows(s, radix, k);
    }
}

/// Reads an unsigned numeral of radix 10 or 16.
fn parse_unsigned(numeric: &str, radix: u64) -> (r: Result<u64, Error>)
    requires
        radix == 10 || radix == 16,
    ensures
        r is Ok <==> unsigned_value(numeric@, radix as nat) is Some,
        r is Ok ==> r->Ok_0 == unsigned_value(numeric@, radix as nat)->0,
        r is Err ==> r->Err_0@ == ErrorView::InvalidNumber,
{
    let cs = str_chars(numeric);
    let start: usize = if cs.len() > 0 && cs[0] == '+' {
        1
    } else {
        0
    };
    proof {
        assert(cs@.skip(0) =~= cs@);
        assert(cs@.skip(1) =~= cs@.drop_first());
    }
    if start == cs.len() {
        return Err(Error::InvalidNumber);
    }
    match parse_digits(&cs, start, radix, u64::MAX) {
        Some(v) => Ok(v),
        None => Err(Error::InvalidNumber),
    }
}

/// Reads a signed numeral of radix 10 or 16.
fn parse_signed(numeric: &str, radix: u64) -> (r: Result<i64, Error>)
    requires
        radix == 10 || radix == 16,
    ensures
        r is Ok <==> signed_value(numeric@, radix as nat) is Some,
        r is Ok ==> r->Ok_0 == signed_value(numeric@, radix as nat)->0,
        r is Err ==> r->Err_0@ == ErrorView::InvalidNumber,
{
    let cs = str_chars(numeric);
    let negative = cs.len() > 0 && cs[0] == '-';
    let start: usize = if cs.len() > 0 && (cs[0] == '+' || cs[0] == '-') {
        1
    } else {
        0
    };
    proof {
        assert(cs@.skip(0) =~= cs@);
        assert(cs@.skip(1) =~= cs@.drop_first());
    }
    if start == cs.len() {
        return Err(Error::InvalidNumber);
    }
    let limit: u64 = if negative {
        0x8000_0000_0000_0000
    } else {
        0x7fff_ffff_ffff_ffff
    };
    match parse_digits(&cs, start, radix, limit) {
        Some(v) => {
            if negative {
                if v == 0x8000_0000_0000_0000 {
                    Ok(i64::MIN)
                } else {
                    Ok(-(v as i64))
                }
            } else {
                Ok(v as i64)
            }
        },
        None => Err(Error::InvalidNumber),
    }
}

/// Reads a hexadecimal numeral, without prefix, as a `u64`.
pub fn hex_str_to_u64(numeric: &str) -> (r: Result<u64, Error>)
    ensures
        r is Ok <==> unsigned_value(numeric@, 16) is Some,
        r is Ok ==> r->Ok_0 == unsigned_value(numeric@, 16)->0,
        r is Err ==> r->Err_0@ == ErrorView::InvalidNumber,
{
    parse_unsigned(numeric, 16)
}

/// Reads a hexadecimal numeral, without prefix, as an `i64`.
pub fn hex_str_to_i64(numeric: &str) -> (r: Result<i64, Error>)
    ensures
        r is Ok <==> signed_value(numeric@, 16) is Some,
        r is Ok ==> r->Ok_0 == signed_value(numeric@, 16)->0,
        r is Err ==> r->Err_0@ == ErrorView::InvalidNumber,
{
    parse_signed(numeric, 16)
}

/// Reads a decimal numeral as a `u64`.
pub fn dec_str_to_u64(numeric: &str) -> (r: Result<u64, Error>)
    ensures
        r is Ok <==> unsigned_value(numeric@, 10) is Some,
        r is Ok ==> r->Ok_0 == unsigned_value(numeric@, 10)->0,
        r is Err ==> r->Err_0@ == ErrorView::InvalidNumber,
{
    parse_unsigned(numeric, 10)
}

/// Reads a decimal numeral as an `i64`.
pub fn dec_str_to_i64(numeric: &str) -> (r: Result<i64, Error>)
    ensures
        r is Ok <==> signed_value(numeric@, 10) is Some,
        r is Ok ==> r->Ok_0 == signed_value(numeric@, 10)->0,
        r is Err ==> r->Err_0@ == ErrorView::InvalidNumber,
{
    parse_signed(numeric, 10)
}

// =========================================================================
// Printing

/// The margin put before each line: `indent` spaces, and one where
/// `indent` is 0.
pub open spec fn margin(indent: nat) -> Seq<char> {
    if indent == 0 {
        spaces(1)
    } else {
        spaces(indent)
    }
}

/// `s` with the margin before its first line and after each line break.
pub open spec fn indented(s: Seq<char>, indent: nat) -> Seq<char> {
    margin(indent) + replace_char(s, '\n', seq!['\n'] + margin(indent))
}

/// Indents every line of `s` by `indent` spaces (by one space where
/// `indent` is 0).
pub fn indent_text(s: String, indent: usize) -> (r: String)
    ensures
        r@ == indented(s@, indent as nat),
{
    let pad = make_spaces(if indent == 0 {
        1
    } else {
        indent
    });
    let mut brk = String::new();
    push_char(&mut brk, '\n');
    brk.append(pad.as_str());
    assert(brk@ =~= seq!['\n'] + margin(indent as nat));
    let body = replace_each(s.as_str(), '\n', brk.as_str());
    let mut out = pad;
    out.append(body.as_str());
    out
}

// =========================================================================
// Names of generated items

/// The name of the macro that gives the address of the global variable
/// `name`.
pub fn global_var_ptr_name(name: &str) -> (r: String)
    ensures
        r@ == "global_var_"@ + name@,
{
    let mut s = String::from_str("global_var_");
    s.append(name);
    s
}

/// The name of the macro that gives the entry address of the function
/// `func_name`.
pub fn global_func_addr_name(func_name: &str) -> (r: String)
    ensures
        r@ == "global_func_"@ + func_name@,
{
    let mut s = String::from_str("global_func_");
    s.append(func_name);
    s
}

/// The name of the variable that stands for the memory at the address
/// `addr`.
pub fn abs_access_name(addr: &u64) -> (r: String)
    ensures
        r@ == "mem_access_"@ + dec_digits(*addr as nat),
{
    let mut s = String::from_str("mem_access_");
    let d = u64_to_dec(*addr);
    s.append(d.as_str());
    s
}

// =========================================================================
// Bit masks

/// The bits below bit `n` of the mask that has ones from bit `r` up to bit
/// `l`.
pub open spec fn mask_below(l: u64, r: u64, n: nat) -> u64
    decreases n,
{
    if n == 0 {
        0
    } else {
        let i = (n - 1) as u64;
        let m = mask_below(l, r, (n - 1) as nat);
        if r <= i && i <= l && i < 64 {
            m | (1u64 << i)
        } else {
            m
        }
    }
}

/// The mask with ones from bit `r` up to bit `l`, and zeros elsewhere.
pub open spec fn mask_bits(l: u64, r: u64) -> u64 {
    mask_below(l, r, 64)
}

/// Whether bit `i` of `m` is one.
pub open spec fn bit_set(m: u64, i: u64) -> bool {
    (m >> i) & 1 == 1
}

/// Bit `i` of the mask below `n` is one exactly where `i` lies from `r` up
/// to `l` and below `n`.
proof fn lemma_mask_below_bit(l: u64, r: u64, n: nat, i: u64)
    requires
        n <= 64,
        i < 64,
    ensures
        bit_set(mask_below(l, r, n), i) <==> (r <= i && i <= l && i < n),
    decreases n,
{
    if n == 0 {
        assert(!bit_set(0u64, i)) by (bit_vector)
            requires
                i < 64,
        ;
    } else {
        let j = (n - 1) as u64;
        let m = mask_below(l, r, (n - 1) as nat);
        lemma_mask_below_bit(l, r, (n - 1) as nat, i);
        if r <= j && j <= l {
            assert(bit_set(m | (1u64 << j), i) <==> (bit_set(m, i) || i == j)) by (bit_vector)
                requires
                    i < 64,
                    j < 64,
            ;
        }
    }
}

/// Bit `i` of a mask is one exactly where `i` lies from `r` up to `l`: so
/// the mask is zero where `l` is below `r`, and all ones from 0 to 63.
pub proof fn lemma_mask_bit(l: u64, r: u64, i: u64)
    requires
        i < 64,
    ensures
        bit_set(mask_bits(l, r), i) <==> (r <= i && i <= l),
{
    lemma_mask_below_bit(l, r, 64, i);
}

/// A mask with ones from the `r`-th bit up to the `l`-th bit.
pub fn mask(l: u64, r: u64) -> (m: u64)
    ensures
        m == mask_bits(l, r),
{
    let mut m: u64 = 0;
    let mut i: u64 = 0;
    while i < 64
        invariant
            i <= 64,
            m == mask_below(l, r, i as nat),
        decreases 64 - i,
    {
        if r <= i && i <= l {
            m = m | (1u64 << i);
        }
        i += 1;
    }
    m
}

} // verus!
