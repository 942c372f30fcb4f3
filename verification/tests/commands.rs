use brainfuck::cmd_handler::{scan_sequence, special_command, CmdChars, SequenceStatus, SpecialCmd};
use brainfuck::input_reader::InputReader;

#[test]
fn cmd_chars_walks_a_line() {
    let mut chs = CmdChars::new(String::from("ab"));
    assert_eq!(chs.peek(), Some('a'));
    chs.next();
    assert_eq!(chs.peek(), Some('b'));
    chs.next();
    assert_eq!(chs.peek(), None);
    chs.push(String::from("c"));
    assert_eq!(chs.peek(), Some('c'));
}

#[test]
fn quit_and_help_and_time() {
    let mut chs = CmdChars::new(String::from(":q\n"));
    assert!(matches!(special_command(&mut chs), SpecialCmd::Quit));
    let mut chs = CmdChars::new(String::from(":h\n"));
    assert!(matches!(special_command(&mut chs), SpecialCmd::Help));
    let mut chs = CmdChars::new(String::from(":t\n"));
    assert!(matches!(special_command(&mut chs), SpecialCmd::Time));
    let mut chs = CmdChars::new(String::from(":x\n"));
    assert!(matches!(special_command(&mut chs), SpecialCmd::Error));
}

#[test]
fn load_collects_file_names() {
    let mut chs = CmdChars::new(String::from(":l one two\n"));
    match special_command(&mut chs) {
        SpecialCmd::Load(files) => {
            assert_eq!(files.len(), 2);
            assert_eq!(files[0], vec!['o', 'n', 'e']);
            assert_eq!(files[1], vec!['t', 'w', 'o']);
        },
        other => panic!("expected a load command, found {:?}", other),
    }
}

#[test]
fn save_toggles_and_names() {
    let mut chs = CmdChars::new(String::from(":s\n"));
    match special_command(&mut chs) {
        SpecialCmd::SaveFile => {},
        other => panic!("expected a save toggle, found {:?}", other),
    }
    let mut chs = CmdChars::new(String::from(":s out.b\n"));
    match special_command(&mut chs) {
        SpecialCmd::File(name) => assert_eq!(name, vec!['o', 'u', 't', '.', 'b']),
        other => panic!("expected a save file, found {:?}", other),
    }
}

#[test]
fn sequence_balance_scan() {
    assert!(matches!(scan_sequence("[+]"), SequenceStatus::Complete));
    assert!(matches!(scan_sequence("[+"), SequenceStatus::NeedMore));
    assert!(matches!(scan_sequence("~+"), SequenceStatus::NeedMore));
    assert!(matches!(scan_sequence("]"), SequenceStatus::UnbalancedClose));
    assert!(matches!(scan_sequence("[~"), SequenceStatus::FunInsideLoop));
    assert!(matches!(scan_sequence("~[~"), SequenceStatus::FunWithOpenLoops));
}

#[test]
fn input_reader_hands_out_code_points() {
    let mut ir = InputReader::new();
    assert!(!ir.has_next());
    ir.supply("Az");
    assert!(ir.has_next());
    assert_eq!(ir.next(), 65);
    assert_eq!(ir.next(), 122);
    assert!(!ir.has_next());
}
