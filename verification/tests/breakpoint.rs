use fuel_debugger::breakpoint::{Breakpoint, ContractId, Target};
use fuel_debugger::limits::{INSTRUCTION_SIZE, MAX_RAM, REGISTER_COUNT, WORD_SIZE};

fn id(fill: u8) -> ContractId {
    ContractId { bytes: [fill; 32] }
}

#[test]
fn limits_are_those_of_the_machine() {
    assert_eq!(REGISTER_COUNT, fuel_vm::consts::VM_REGISTER_COUNT);
    assert_eq!(WORD_SIZE, fuel_vm::consts::WORD_SIZE);
    assert_eq!(MAX_RAM, fuel_vm::consts::VM_MAX_RAM);
    assert_eq!(INSTRUCTION_SIZE, fuel_vm::prelude::Opcode::LEN as u64);
}

#[test]
fn breakpoints_count_instructions_as_the_machine_does() {
    for index in [0u64, 1, 2, 7, 1000, u64::MAX / 4] {
        let theirs = fuel_vm::prelude::Breakpoint::script(index);
        let ours = Breakpoint::script(index);
        assert_eq!(ours.pc, theirs.pc());
        assert_eq!(ours.target, Target::Script);
        let contract = fuel_vm::prelude::ContractId::new([7; 32]);
        let theirs = fuel_vm::prelude::Breakpoint::new(contract, index);
        let ours = Breakpoint::new(id(7), index);
        assert_eq!(ours.pc, theirs.pc());
        assert_eq!(ours.target, Target::Contract(id(7)));
    }
    assert_eq!(Breakpoint::script(3).pc, 12);
}

#[test]
fn contract_id_parse_reads_hex() {
    let text = "0x000102030405060708090a0b0c0d0e0f101112131415161718191A1B1C1D1E1F";
    let mut bytes = [0u8; 32];
    for (i, b) in bytes.iter_mut().enumerate() {
        *b = i as u8;
    }
    assert_eq!(ContractId::parse(text), Some(ContractId { bytes }));
    assert_eq!(ContractId::parse(&text[2..]), Some(ContractId { bytes }));
    assert_eq!(ContractId::parse(&"ff".repeat(32)), Some(id(0xff)));
    assert_eq!(ContractId::parse(&"00".repeat(32)), Some(id(0)));
}

#[test]
fn contract_id_parse_rejects_short_or_foreign_text() {
    assert_eq!(ContractId::parse(""), None);
    assert_eq!(ContractId::parse("0x"), None);
    assert_eq!(ContractId::parse(&"0".repeat(63)), None);
    assert_eq!(ContractId::parse(&format!("0x{}", "0".repeat(63))), None);
    assert_eq!(ContractId::parse(&format!("{}g", "0".repeat(63))), None);
    assert_eq!(ContractId::parse(&format!("0X{}", "0".repeat(64))), None);
    assert_eq!(ContractId::parse(&format!(" {}", "0".repeat(64))), None);
}

#[test]
fn contract_id_parse_does_not_read_behind_the_digits() {
    assert_eq!(ContractId::parse(&format!("{}zz", "ab".repeat(32))), Some(id(0xab)));
    assert_eq!(ContractId::parse(&format!("0x{}0", "ab".repeat(32))), Some(id(0xab)));
}

#[test]
fn contract_id_parse_agrees_with_the_machine() {
    let texts = [
        String::new(),
        "0x".to_string(),
        "12".repeat(32),
        format!("0x{}", "cd".repeat(32)),
        format!("0x{}", "CD".repeat(32)),
        format!("{}xyz", "9f".repeat(32)),
        "1".repeat(63),
        "é".repeat(32),
        format!("0x{}é", "0".repeat(62)),
    ];
    for text in texts {
        let theirs: Option<[u8; 32]> =
            text.parse::<fuel_vm::prelude::ContractId>().ok().map(|id| id.into());
        let ours = ContractId::parse(&text).map(|id| id.bytes);
        assert_eq!(ours, theirs, "text {:?}", text);
    }
}

#[test]
fn script_breakpoint_matches_outside_contracts_only() {
    let bp = Breakpoint::script(2);
    assert!(bp.matches(None, 8));
    assert!(!bp.matches(None, 4));
    assert!(!bp.matches(None, 2));
    assert!(!bp.matches(Some(id(0)), 8));
    assert!(!bp.matches(Some(id(1)), 8));
}

#[test]
fn contract_breakpoint_matches_inside_its_contract_only() {
    let bp = Breakpoint::new(id(5), 1);
    assert!(bp.matches(Some(id(5)), 4));
    assert!(!bp.matches(Some(id(5)), 0));
    assert!(!bp.matches(Some(id(6)), 4));
    assert!(!bp.matches(None, 4));
}

#[test]
fn breakpoints_compare_by_target_and_offset() {
    assert_eq!(Breakpoint::script(1), Breakpoint { target: Target::Script, pc: 4 });
    assert_ne!(Breakpoint::script(1), Breakpoint::script(2));
    assert_ne!(Breakpoint::script(1), Breakpoint::new(id(0), 1));
    assert_ne!(Breakpoint::new(id(1), 1), Breakpoint::new(id(2), 1));
    let mut other = id(1);
    other.bytes[31] = 9;
    assert_ne!(id(1), other);
    assert_eq!(id(1), id(1));
}
