use fuel_debugger::error::{ArgError, SessionError};
use fuel_debugger::names::{register_index, register_name, NAMED_REGISTERS};
use fuel_debugger::text::{push_decimal, push_hex_padded, push_text};
use fuel_vm::consts::{
    REG_BAL, REG_CGAS, REG_ERR, REG_FLAG, REG_FP, REG_GGAS, REG_HP, REG_IS, REG_OF, REG_ONE, REG_PC,
    REG_RET, REG_RETL, REG_SP, REG_SSP, REG_WRITABLE, REG_ZERO,
};

#[test]
fn push_decimal_writes_like_display() {
    for n in [0u64, 1, 9, 10, 11, 99, 100, 12345, u64::MAX, u64::MAX - 1, 1 << 32] {
        let mut out = String::from("n=");
        push_decimal(&mut out, n);
        assert_eq!(out, format!("n={}", n));
    }
}

#[test]
fn push_hex_padded_writes_like_lower_hex() {
    for n in [0u64, 1, 9, 10, 15, 16, 255, 256, 0xabcdef, 0x1000000, u64::MAX] {
        let mut six = String::new();
        push_hex_padded(&mut six, n, 6);
        assert_eq!(six, format!("{:06x}", n));
        let mut two = String::from(" ");
        push_hex_padded(&mut two, n, 2);
        assert_eq!(two, format!(" {:02x}", n));
        let mut none = String::new();
        push_hex_padded(&mut none, n, 0);
        assert_eq!(none, format!("{:x}", n));
    }
}

#[test]
fn push_text_appends() {
    let mut out = String::from("ab");
    push_text(&mut out, "cd");
    assert_eq!(out, "abcd");
}

#[test]
fn arg_error_messages() {
    assert_eq!(ArgError::Invalid.message(), "Invalid argument");
    assert_eq!(ArgError::NotEnough.message(), "Not enough arguments");
    assert_eq!(ArgError::TooMany.message(), "Too many arguments");
}

#[test]
fn session_error_messages() {
    assert_eq!(SessionError::NoSession.message(), "no session");
    assert_eq!(SessionError::AlreadyActive.message(), "session already exists");
    assert_eq!(SessionError::Mismatch.message(), "id mismatch");
}

#[test]
fn register_names_follow_the_machine() {
    assert_eq!(register_index("zero"), Some(REG_ZERO));
    assert_eq!(register_index("one"), Some(REG_ONE));
    assert_eq!(register_index("of"), Some(REG_OF));
    assert_eq!(register_index("pc"), Some(REG_PC));
    assert_eq!(register_index("ssp"), Some(REG_SSP));
    assert_eq!(register_index("sp"), Some(REG_SP));
    assert_eq!(register_index("fp"), Some(REG_FP));
    assert_eq!(register_index("hp"), Some(REG_HP));
    assert_eq!(register_index("err"), Some(REG_ERR));
    assert_eq!(register_index("ggas"), Some(REG_GGAS));
    assert_eq!(register_index("cgas"), Some(REG_CGAS));
    assert_eq!(register_index("bal"), Some(REG_BAL));
    assert_eq!(register_index("is"), Some(REG_IS));
    assert_eq!(register_index("ret"), Some(REG_RET));
    assert_eq!(register_index("retl"), Some(REG_RETL));
    assert_eq!(register_index("flag"), Some(REG_FLAG));
    assert_eq!(NAMED_REGISTERS, REG_WRITABLE);
}

#[test]
fn register_names_and_indices_agree() {
    for index in 0..NAMED_REGISTERS {
        let name = register_name(index);
        assert_eq!(register_index(&name), Some(index));
    }
    assert_eq!(register_name(3), "pc");
    assert_eq!(register_name(16), "reg16");
    assert_eq!(register_name(63), "reg63");
    assert_eq!(register_index("reg16"), None);
    assert_eq!(register_index("PC"), None);
    assert_eq!(register_index(""), None);
}
