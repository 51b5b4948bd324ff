use synthetrix::runtime::console_text;
use synthetrix::runtime::glyph;
use synthetrix::runtime::python_command;
use synthetrix::runtime::unparsed_detail;

#[test]
fn check_glyphs() {
    assert_eq!(glyph("OK"), "✔");
    assert_eq!(glyph("WARN"), "▲");
    assert_eq!(glyph("FAIL"), "✖");
    assert_eq!(glyph("SKIP"), "–");
    assert_eq!(glyph("ok"), "?");
}

#[test]
fn python_defaults() {
    assert_eq!(python_command("  "), "python");
    assert_eq!(python_command(" C:/py/python.exe "), "C:/py/python.exe");
}

#[test]
fn console_output_choice() {
    assert_eq!(console_text("  ", " boom \n"), "boom");
    assert_eq!(console_text(" running\n", "warning"), "running");
    assert_eq!(unparsed_detail("out", "  "), "out");
    assert_eq!(unparsed_detail("out", "err"), "err");
}
