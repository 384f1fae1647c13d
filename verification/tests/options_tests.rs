use subsonic_vault::options::parse_u16;
use subsonic_vault::process_args;
use subsonic_vault::Error;
use subsonic_vault::ProgramOption;

fn s(x: &str) -> String {
    x.to_string()
}

#[test]
fn parse_u16_accepts_plain_and_signed_decimals() {
    assert_eq!(parse_u16("0"), Some(0));
    assert_eq!(parse_u16("80"), Some(80));
    assert_eq!(parse_u16("+123"), Some(123));
    assert_eq!(parse_u16("65535"), Some(65535));
    assert_eq!(parse_u16("000065535"), Some(65535));
}

#[test]
fn parse_u16_rejects_garbage_and_overflow() {
    assert_eq!(parse_u16(""), None);
    assert_eq!(parse_u16("+"), None);
    assert_eq!(parse_u16("65536"), None);
    assert_eq!(parse_u16("999999999999999999999"), None);
    assert_eq!(parse_u16("12a"), None);
    assert_eq!(parse_u16("-1"), None);
    assert_eq!(parse_u16(" 80"), None);
}

#[test]
fn last_argument_is_the_base_directory() {
    let r = process_args(&vec![s("--port=8080"), s("/music")]).unwrap();
    assert_eq!(r.len(), 2);
    assert!(matches!(&r[0], ProgramOption::BaseDir(p) if p == "/music"));
    assert!(matches!(&r[1], ProgramOption::Port(8080)));
}

#[test]
fn lone_help_flag() {
    let r = process_args(&vec![s("--help")]).unwrap();
    assert_eq!(r.len(), 1);
    assert!(matches!(&r[0], ProgramOption::PrintHelp));
}

#[test]
fn help_before_a_base_directory_is_a_flag() {
    let r = process_args(&vec![s("--help"), s("/music")]).unwrap();
    assert_eq!(r.len(), 2);
    assert!(matches!(&r[0], ProgramOption::BaseDir(p) if p == "/music"));
    assert!(matches!(&r[1], ProgramOption::PrintHelp));
}

#[test]
fn no_arguments_is_a_structure_error() {
    let r = process_args(&Vec::new());
    assert!(matches!(r, Err(Error::InvalidOptionsStructure)));
}

#[test]
fn unknown_flag_is_reported() {
    let r = process_args(&vec![s("--bogus"), s("/music")]);
    assert!(matches!(r, Err(Error::InvalidOption(a)) if a == "--bogus"));
}

#[test]
fn unparsable_port_is_reported() {
    let r = process_args(&vec![s("--port=99999"), s("/music")]);
    assert!(matches!(r, Err(Error::InvalidOption(a)) if a == "--port=99999"));
    let r2 = process_args(&vec![s("--port="), s("/music")]);
    assert!(matches!(r2, Err(Error::InvalidOption(a)) if a == "--port="));
}

#[test]
fn a_lone_port_flag_is_taken_as_the_base_directory() {
    // The last argument is the base directory whenever it is not `--help`.
    let r = process_args(&vec![s("--port=80")]).unwrap();
    assert_eq!(r.len(), 1);
    assert!(matches!(&r[0], ProgramOption::BaseDir(p) if p == "--port=80"));
}
