use fuel_debugger::breakpoint::{Breakpoint, ContractId, Target};
use fuel_debugger::error::ArgError;
use fuel_debugger::shell::{
    breakpoint_args, memory_args, memory_dump, no_args, register_args, start_tx_args, step_args,
    MemoryRange,
};

fn words(line: &[&str]) -> Vec<String> {
    line.iter().map(|w| w.to_string()).collect()
}

/// The lines of a dump, written with format strings.
fn dump_by_format(offset: usize, mem: &[u8]) -> Vec<String> {
    let mut lines = Vec::new();
    for (i, chunk) in mem.chunks(8).enumerate() {
        let mut line = format!(" {:06x}:", offset + i * 8);
        for byte in chunk {
            line.push_str(&format!(" {:02x}", byte));
        }
        lines.push(line);
    }
    lines
}

#[test]
fn memory_args_take_offset_and_limit() {
    assert_eq!(memory_args(&words(&["m", "16", "32"])), Ok(MemoryRange { offset: 16, limit: 32 }));
    assert_eq!(memory_args(&words(&["memory", "0x10", "0x20"])), Ok(MemoryRange { offset: 16, limit: 32 }));
    assert_eq!(memory_args(&words(&["m", "64"])), Ok(MemoryRange { offset: 0, limit: 64 }));
}

#[test]
fn memory_args_default_to_the_whole_memory() {
    let all = fuel_vm::consts::WORD_SIZE * (fuel_vm::consts::VM_MAX_RAM as usize);
    assert_eq!(memory_args(&words(&["m"])), Ok(MemoryRange { offset: 0, limit: all }));
    assert_eq!(all, 67_108_864);
}

#[test]
fn memory_args_report_faults_in_order() {
    assert_eq!(memory_args(&words(&[])), Err(ArgError::NotEnough));
    assert_eq!(memory_args(&words(&["m", "x"])), Err(ArgError::Invalid));
    assert_eq!(memory_args(&words(&["m", "x", "1"])), Err(ArgError::Invalid));
    assert_eq!(memory_args(&words(&["m", "1", "x"])), Err(ArgError::Invalid));
    assert_eq!(memory_args(&words(&["m", "1", "2", "3"])), Err(ArgError::TooMany));
    assert_eq!(memory_args(&words(&["m", "x", "2", "3"])), Err(ArgError::TooMany));
    assert_eq!(memory_args(&words(&["m", "1", "x", "3"])), Err(ArgError::Invalid));
    assert_eq!(memory_args(&words(&["m", "1", "2", "x"])), Err(ArgError::Invalid));
}

#[test]
fn breakpoint_args_build_script_and_contract_breakpoints() {
    assert_eq!(breakpoint_args(&words(&["b", "0"])), Ok(Breakpoint { target: Target::Script, pc: 0 }));
    assert_eq!(breakpoint_args(&words(&["b", "3"])), Ok(Breakpoint { target: Target::Script, pc: 12 }));
    assert_eq!(breakpoint_args(&words(&["b", "0x10"])), Ok(Breakpoint { target: Target::Script, pc: 64 }));
    let id = "0x".to_string() + &"1f".repeat(32);
    assert_eq!(
        breakpoint_args(&words(&["breakpoint", &id, "2"])),
        Ok(Breakpoint { target: Target::Contract(ContractId { bytes: [0x1f; 32] }), pc: 8 })
    );
}

#[test]
fn breakpoint_args_report_faults() {
    assert_eq!(breakpoint_args(&words(&[])), Err(ArgError::NotEnough));
    assert_eq!(breakpoint_args(&words(&["b"])), Err(ArgError::NotEnough));
    assert_eq!(breakpoint_args(&words(&["b", "x"])), Err(ArgError::Invalid));
    assert_eq!(breakpoint_args(&words(&["b", "nocontract", "1"])), Err(ArgError::Invalid));
    assert_eq!(breakpoint_args(&words(&["b", "a", "b", "c"])), Err(ArgError::TooMany));
    assert_eq!(breakpoint_args(&words(&["b", "a", "1", "2"])), Err(ArgError::TooMany));
    let id = "00".repeat(32);
    assert_eq!(breakpoint_args(&words(&["b", &id, "x"])), Err(ArgError::Invalid));
}

#[test]
fn breakpoint_args_refuse_an_offset_that_cannot_be_counted_in_bytes() {
    let last = format!("{}", u64::MAX / 4);
    let beyond = format!("{}", u64::MAX / 4 + 1);
    assert_eq!(
        breakpoint_args(&words(&["b", &last])),
        Ok(Breakpoint { target: Target::Script, pc: u64::MAX / 4 * 4 })
    );
    assert_eq!(breakpoint_args(&words(&["b", &beyond])), Err(ArgError::Invalid));
}

#[test]
fn step_args_turn_stepping_on_unless_told_off() {
    assert_eq!(step_args(&words(&["s"])), Ok(true));
    assert_eq!(step_args(&words(&["s", "on"])), Ok(true));
    assert_eq!(step_args(&words(&["s", "off"])), Ok(false));
    assert_eq!(step_args(&words(&["s", "no"])), Ok(false));
    assert_eq!(step_args(&words(&["step", "disable"])), Ok(false));
    assert_eq!(step_args(&words(&["s", "OFF"])), Ok(true));
    assert_eq!(step_args(&words(&["s", ""])), Ok(true));
    assert_eq!(step_args(&words(&["s", "on", "off"])), Err(ArgError::TooMany));
    assert_eq!(step_args(&words(&[])), Err(ArgError::NotEnough));
}

#[test]
fn no_args_take_the_command_alone() {
    assert_eq!(no_args(&words(&["version"])), Ok(()));
    assert_eq!(no_args(&words(&["c", "now"])), Err(ArgError::TooMany));
    assert_eq!(no_args(&words(&[])), Err(ArgError::NotEnough));
}

#[test]
fn start_tx_args_take_one_path() {
    assert_eq!(start_tx_args(&words(&["tx", "a/b.json"])), Ok("a/b.json".to_string()));
    assert_eq!(start_tx_args(&words(&["tx"])), Err(ArgError::NotEnough));
    assert_eq!(start_tx_args(&words(&[])), Err(ArgError::NotEnough));
    assert_eq!(start_tx_args(&words(&["tx", "a", "b"])), Err(ArgError::TooMany));
}

#[test]
fn register_args_without_words_select_all() {
    let selection = register_args(&words(&["r"])).unwrap();
    assert_eq!(selection.indices, (0..64).collect::<Vec<usize>>());
    assert_eq!(selection.names.len(), 64);
    assert_eq!(selection.names[0], "zero");
    assert_eq!(selection.names[15], "flag");
    assert_eq!(selection.names[16], "reg16");
    assert_eq!(selection.names[63], "reg63");
    assert_eq!(selection.complaint, None);
    assert!(matches!(register_args(&words(&[])), Err(ArgError::NotEnough)));
}

#[test]
fn register_args_resolve_names_and_indices() {
    let selection = register_args(&words(&["r", "pc", "0x10", "flag", "63", "zero"])).unwrap();
    assert_eq!(selection.indices, vec![3, 16, 15, 63, 0]);
    assert_eq!(selection.names, vec!["pc", "reg16", "flag", "reg63", "zero"]);
    assert_eq!(selection.complaint, None);
    let selection = register_args(&words(&["r", "3", "0x0f"])).unwrap();
    assert_eq!(selection.indices, vec![3, 15]);
    assert_eq!(selection.names, vec!["pc", "flag"]);
}

#[test]
fn register_args_stop_at_the_first_word_that_names_none() {
    let selection = register_args(&words(&["r", "pc", "64", "sp"])).unwrap();
    assert_eq!(selection.indices, vec![3]);
    assert_eq!(selection.names, vec!["pc"]);
    assert_eq!(selection.complaint, Some("Register index too large 64".to_string()));
    let selection = register_args(&words(&["r", "nope", "sp"])).unwrap();
    assert_eq!(selection.indices, Vec::<usize>::new());
    assert_eq!(selection.complaint, Some("Unknown register name nope".to_string()));
    let selection = register_args(&words(&["r", "1", "2", "0xffff"])).unwrap();
    assert_eq!(selection.indices, vec![1, 2]);
    assert_eq!(selection.complaint, Some("Register index too large 65535".to_string()));
}

#[test]
fn memory_dump_prints_one_word_a_line() {
    let mem: Vec<u8> = (0u8..20).collect();
    let lines = memory_dump(0x10, &mem);
    assert_eq!(
        lines,
        vec![
            " 000010: 00 01 02 03 04 05 06 07".to_string(),
            " 000018: 08 09 0a 0b 0c 0d 0e 0f".to_string(),
            " 000020: 10 11 12 13".to_string(),
        ]
    );
}

#[test]
fn memory_dump_agrees_with_format() {
    for len in [0usize, 1, 7, 8, 9, 16, 17, 255] {
        for offset in [0usize, 1, 0xfffff8, 0x1000000, 123456789] {
            let mem: Vec<u8> = (0..len).map(|i| (i * 37 % 256) as u8).collect();
            assert_eq!(memory_dump(offset, &mem), dump_by_format(offset, &mem));
        }
    }
    assert_eq!(memory_dump(5, &[]), Vec::<String>::new());
}
