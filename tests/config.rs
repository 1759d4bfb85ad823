use receipt_printer_emulator::config::{output_mode, output_mode_of_lowercase, OutputMode};

#[test]
fn output_mode_names() {
    assert_eq!(output_mode_of_lowercase("file"), OutputMode::File);
    assert_eq!(output_mode_of_lowercase("both"), OutputMode::Both);
    assert_eq!(output_mode_of_lowercase("console"), OutputMode::Console);
    assert_eq!(output_mode_of_lowercase("FILE"), OutputMode::Console);
    assert_eq!(output_mode_of_lowercase(""), OutputMode::Console);
}

#[test]
fn output_mode_ignores_case() {
    assert_eq!(output_mode("FILE"), OutputMode::File);
    assert_eq!(output_mode("Both"), OutputMode::Both);
    assert_eq!(output_mode("anything"), OutputMode::Console);
}

#[test]
fn output_mode_destinations() {
    assert!(OutputMode::Console.to_console() && !OutputMode::Console.to_file());
    assert!(!OutputMode::File.to_console() && OutputMode::File.to_file());
    assert!(OutputMode::Both.to_console() && OutputMode::Both.to_file());
}
