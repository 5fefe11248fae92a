use task_nexus::registry::extract_path_from_command;

#[test]
fn test_extract_path() {
    assert_eq!(
        extract_path_from_command(r#""C:\Program Files\App\app.exe" --arg"#),
        r"C:\Program Files\App\app.exe"
    );
    assert_eq!(
        extract_path_from_command(r"C:\Windows\System32\cmd.exe /c"),
        r"C:\Windows\System32\cmd.exe"
    );
}

#[test]
fn msiexec_commands_yield_nothing() {
    assert_eq!(extract_path_from_command("MsiExec.exe /X{GUID}"), "");
    assert_eq!(extract_path_from_command("msiexec /quiet"), "");
}

#[test]
fn unquoted_word_without_separator_is_returned_whole() {
    assert_eq!(extract_path_from_command("notepad --flag"), "notepad --flag");
    assert_eq!(extract_path_from_command(r"C:\tools\run.exe"), r"C:\tools\run.exe");
}

#[test]
fn surrounding_whitespace_is_trimmed() {
    assert_eq!(
        extract_path_from_command("  C:/bin/app.exe --x  "),
        "C:/bin/app.exe"
    );
}

#[test]
fn unterminated_quote_falls_through() {
    assert_eq!(
        extract_path_from_command(r#""C:\App\run.exe --arg"#),
        r#""C:\App\run.exe"#
    );
}
