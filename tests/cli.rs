use awkc::args::{ArgsError, AwkArgs, ProgramType};
use awkc::codegen::{Compiled, Insn};
use awkc::columns::Columns;
use awkc::machine::{Action, Machine};

fn argv(items: &[&str]) -> Vec<String> {
    items.iter().map(|s| s.to_string()).collect()
}

#[test]
fn test_args_program_and_files() {
    let a = AwkArgs::new(argv(&["awkc", "{ print $1 }", "a.txt", "b.txt"])).unwrap();
    assert!(!a.dump);
    assert_eq!(a.program, ProgramType::CLI("{ print $1 }".to_string()));
    assert_eq!(a.files, argv(&["a.txt", "b.txt"]));
}

#[test]
fn test_args_dump_and_program_file() {
    let a = AwkArgs::new(argv(&["awkc", "--dump", "-f", "prog.awk", "in.txt"])).unwrap();
    assert!(a.dump);
    assert_eq!(a.program, ProgramType::File("prog.awk".to_string()));
    assert_eq!(a.files, argv(&["in.txt"]));
}

#[test]
fn test_args_errors() {
    assert_eq!(AwkArgs::new(argv(&["awkc"])), Err(ArgsError::NoProgram));
    assert_eq!(AwkArgs::new(argv(&["awkc", "--dump"])), Err(ArgsError::NoProgram));
    assert_eq!(AwkArgs::new(argv(&["awkc", "-f"])), Err(ArgsError::MissingFileName));
    assert_eq!(
        AwkArgs::new(argv(&["awkc", "{}", "-f", "p.awk"])),
        Err(ArgsError::MultiplePrograms)
    );
}

fn machine(code: Vec<Insn>, slots: usize) -> Machine {
    let names = (0..slots).map(|i| format!("v{}", i)).collect();
    Machine::new(Compiled { code, names }, Columns::new(vec![b"r1 x\nr2 y\n".to_vec()]))
}

#[test]
fn test_machine_faults_leave_state() {
    let mut m = machine(vec![Insn::Pop], 0);
    assert!(matches!(m.step(), Action::Fault));
    assert!(matches!(m.step(), Action::Fault));
    let mut m = machine(vec![Insn::Load(3)], 1);
    assert!(matches!(m.step(), Action::Fault));
    let mut m = machine(vec![Insn::Skip(5)], 0);
    assert!(matches!(m.step(), Action::Fault));
    let mut m = machine(vec![Insn::PushStr("a".to_string()), Insn::Field], 0);
    assert!(matches!(m.step(), Action::Continue));
    assert!(matches!(m.step(), Action::Fault));
}

#[test]
fn test_machine_protocol() {
    let mut m = machine(
        vec![
            Insn::NextRecord,
            Insn::Pop,
            Insn::PushNum(2.0f64.to_bits()),
            Insn::Field,
            Insn::Assign(0),
            Insn::Print,
            Insn::Load(0),
            Insn::ToNum,
            Insn::Print,
        ],
        1,
    );
    assert!(matches!(m.step(), Action::Continue));
    assert!(matches!(m.step(), Action::Continue));
    assert!(matches!(m.step(), Action::Continue));
    match m.step() {
        Action::FieldIndex(bits) => assert_eq!(f64::from_bits(bits), 2.0),
        other => panic!("unexpected {:?}", other),
    }
    m.resume_field(2);
    assert!(matches!(m.step(), Action::Continue));
    match m.step() {
        Action::Output(bytes) => assert_eq!(bytes, b"x\n".to_vec()),
        other => panic!("unexpected {:?}", other),
    }
    assert!(matches!(m.step(), Action::Continue));
    match m.step() {
        Action::ParseNumber(text) => assert_eq!(text, b"x".to_vec()),
        other => panic!("unexpected {:?}", other),
    }
    m.resume_number(7.0f64.to_bits());
    match m.step() {
        Action::PrintNumber(bits) => assert_eq!(f64::from_bits(bits), 7.0),
        other => panic!("unexpected {:?}", other),
    }
    assert!(matches!(m.step(), Action::Halt));
}

#[test]
fn test_print_keeps_trailing_newline() {
    let mut m = machine(vec![Insn::PushStr("a\n".to_string()), Insn::Print], 0);
    assert!(matches!(m.step(), Action::Continue));
    match m.step() {
        Action::Output(bytes) => assert_eq!(bytes, b"a\n".to_vec()),
        other => panic!("unexpected {:?}", other),
    }
}
