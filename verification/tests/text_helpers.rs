use riscverifier::helpers::{
    abs_access_name, dec_str_to_i64, dec_str_to_u64, global_func_addr_name, global_var_ptr_name,
    hex_str_to_i64, hex_str_to_u64, indent_text, mask, Error,
};
use riscverifier::names::NameSet;
use riscverifier::text::{
    i64_to_dec, join_strings, replace_each, str_precedes, u64_to_dec, u64_to_hex,
};

#[test]
fn decimal_rendering() {
    assert_eq!(u64_to_dec(0), "0");
    assert_eq!(u64_to_dec(7), "7");
    assert_eq!(u64_to_dec(10), "10");
    assert_eq!(u64_to_dec(8204), "8204");
    assert_eq!(u64_to_dec(u64::MAX), "18446744073709551615");
    assert_eq!(i64_to_dec(0), "0");
    assert_eq!(i64_to_dec(-1), "-1");
    assert_eq!(i64_to_dec(i64::MIN), "-9223372036854775808");
    assert_eq!(i64_to_dec(i64::MAX), "9223372036854775807");
}

#[test]
fn hexadecimal_rendering() {
    assert_eq!(u64_to_hex(0), "0");
    assert_eq!(u64_to_hex(255), "ff");
    assert_eq!(u64_to_hex(0x80004444), "80004444");
    assert_eq!(u64_to_hex(u64::MAX), "ffffffffffffffff");
}

#[test]
fn parses_unsigned_numbers() {
    assert_eq!(hex_str_to_u64("ff"), Ok(255));
    assert_eq!(hex_str_to_u64("FF"), Ok(255));
    assert_eq!(hex_str_to_u64("+10"), Ok(16));
    assert_eq!(hex_str_to_u64("ffffffffffffffff"), Ok(u64::MAX));
    assert_eq!(hex_str_to_u64("10000000000000000"), Err(Error::InvalidNumber));
    assert_eq!(hex_str_to_u64(""), Err(Error::InvalidNumber));
    assert_eq!(hex_str_to_u64("+"), Err(Error::InvalidNumber));
    assert_eq!(hex_str_to_u64("-1"), Err(Error::InvalidNumber));
    assert_eq!(hex_str_to_u64("0x10"), Err(Error::InvalidNumber));
    assert_eq!(dec_str_to_u64("64"), Ok(64));
    assert_eq!(dec_str_to_u64("18446744073709551615"), Ok(u64::MAX));
    assert_eq!(dec_str_to_u64("18446744073709551616"), Err(Error::InvalidNumber));
    assert_eq!(dec_str_to_u64("1a"), Err(Error::InvalidNumber));
    assert_eq!(dec_str_to_u64(" 1"), Err(Error::InvalidNumber));
}

#[test]
fn parses_signed_numbers() {
    assert_eq!(dec_str_to_i64("-12"), Ok(-12));
    assert_eq!(dec_str_to_i64("+12"), Ok(12));
    assert_eq!(dec_str_to_i64("9223372036854775807"), Ok(i64::MAX));
    assert_eq!(dec_str_to_i64("9223372036854775808"), Err(Error::InvalidNumber));
    assert_eq!(dec_str_to_i64("-9223372036854775808"), Ok(i64::MIN));
    assert_eq!(dec_str_to_i64("-9223372036854775809"), Err(Error::InvalidNumber));
    assert_eq!(dec_str_to_i64("-"), Err(Error::InvalidNumber));
    assert_eq!(hex_str_to_i64("-7f"), Ok(-127));
    assert_eq!(hex_str_to_i64("7fffffffffffffff"), Ok(i64::MAX));
    assert_eq!(hex_str_to_i64("8000000000000000"), Err(Error::InvalidNumber));
    assert_eq!(hex_str_to_i64("-8000000000000000"), Ok(i64::MIN));
}

#[test]
fn parsing_agrees_with_the_standard_library() {
    let samples = [
        "0", "00", "1", "+1", "-1", "--1", "+-1", "ff", "Ff", "g", "12_3", " 12", "12 ", "",
        "+", "-", "7fffffffffffffff", "ffffffffffffffff", "10000000000000000",
        "-8000000000000000", "-8000000000000001", "9223372036854775807",
    ];
    for s in samples {
        assert_eq!(hex_str_to_u64(s).ok(), u64::from_str_radix(s, 16).ok(), "hex u64 {:?}", s);
        assert_eq!(hex_str_to_i64(s).ok(), i64::from_str_radix(s, 16).ok(), "hex i64 {:?}", s);
        assert_eq!(dec_str_to_u64(s).ok(), u64::from_str_radix(s, 10).ok(), "dec u64 {:?}", s);
        assert_eq!(dec_str_to_i64(s).ok(), i64::from_str_radix(s, 10).ok(), "dec i64 {:?}", s);
    }
}

#[test]
fn indents_every_line() {
    assert_eq!(indent_text("a\nb".to_string(), 4), "    a\n    b");
    assert_eq!(indent_text("".to_string(), 2), "  ");
    assert_eq!(indent_text("x\n".to_string(), 2), "  x\n  ");
    // Without an indentation one space is still put before each line.
    assert_eq!(indent_text("a\nb".to_string(), 0), " a\n b");
}

#[test]
fn indentation_agrees_with_formatting() {
    for indent in [0usize, 1, 3, 8] {
        for s in ["", "a", "a\nb\n\nc", "\n"] {
            let spaces = format!("\n{:indent$}", " ", indent = indent);
            let expected = format!("{:indent$}{}", " ", s.replace("\n", &spaces[..]), indent = indent);
            assert_eq!(indent_text(s.to_string(), indent), expected);
        }
    }
}

#[test]
fn names_of_generated_items() {
    assert_eq!(global_var_ptr_name("g"), "global_var_g");
    assert_eq!(global_func_addr_name("main"), "global_func_main");
    assert_eq!(abs_access_name(&4096), "mem_access_4096");
    assert_eq!(abs_access_name(&0), "mem_access_0");
}

fn reference_mask(l: u64, r: u64) -> u64 {
    let mut m: u64 = 0;
    for i in 0..64u64 {
        if r <= i && i <= l {
            m |= 1 << i
        }
    }
    m
}

#[test]
fn masks() {
    assert_eq!(mask(7, 0), 0xff);
    assert_eq!(mask(3, 1), 0b1110);
    assert_eq!(mask(0, 0), 1);
    assert_eq!(mask(0, 1), 0);
    assert_eq!(mask(31, 16), 0xffff_0000);
    assert_eq!(mask(7, 4), 0xf0);
    // The top bit is part of a mask that reaches it.
    assert_eq!(mask(63, 0), u64::MAX);
    assert_eq!(mask(63, 63), 1 << 63);
    assert_eq!(mask(62, 0), 0x7fff_ffff_ffff_ffff);
    assert_eq!(mask(u64::MAX, 62), 3 << 62);
    for (l, r) in [(5, 2), (62, 62), (10, 20), (64, 3), (12, 12), (63, 1)] {
        assert_eq!(mask(l, r), reference_mask(l, r));
    }
}

#[test]
fn joins_and_replaces() {
    let parts = vec!["a".to_string(), "b".to_string(), "c".to_string()];
    assert_eq!(join_strings(&parts, ", "), "a, b, c");
    assert_eq!(join_strings(&vec!["x".to_string()], ", "), "x");
    assert_eq!(join_strings(&Vec::new(), ", "), "");
    assert_eq!(replace_each("a.b.c", '.', "_"), "a_b_c");
    assert_eq!(replace_each("abc", '.', "_"), "abc");
    assert_eq!(replace_each("a\nb", '\n', "\n  "), "a\n  b");
}

#[test]
fn order_of_names_is_that_of_strings() {
    let samples = ["", "a", "ab", "b", "a0", "pc", "returned", "mem_b", "Z", "é", "zz"];
    for a in samples {
        for b in samples {
            assert_eq!(str_precedes(a, b), a < b, "{:?} < {:?}", a, b);
        }
    }
}

#[test]
fn name_sets_are_ascending_and_without_duplicates() {
    let mut s = NameSet::new();
    assert_eq!(s.len(), 0);
    s.insert("returned");
    s.insert("pc");
    s.insert("a0");
    s.insert("pc");
    assert_eq!(s.names, vec!["a0".to_string(), "pc".to_string(), "returned".to_string()]);
    assert!(s.contains("pc"));
    assert!(!s.contains("sp"));
    let mut t = NameSet::new();
    t.insert("sp");
    t.insert("a0");
    s.extend(&t);
    assert_eq!(
        s.names,
        vec!["a0".to_string(), "pc".to_string(), "returned".to_string(), "sp".to_string()]
    );
    let u = NameSet::from_names(&vec!["b".to_string(), "a".to_string(), "b".to_string()]);
    assert_eq!(u.names, vec!["a".to_string(), "b".to_string()]);
}

#[test]
fn only_registers_of_64_bits_are_supported() {
    assert_eq!(riscverifier::helpers::supported_xlen(64), Ok(()));
    assert_eq!(
        riscverifier::helpers::supported_xlen(32),
        Err(riscverifier::helpers::Error::UnsupportedXlen(32))
    );
    assert_eq!(
        riscverifier::helpers::supported_xlen(0),
        Err(riscverifier::helpers::Error::UnsupportedXlen(0))
    );
}
